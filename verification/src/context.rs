//! Per-connection state for the HTTP/1 dispatcher: the connection type, the
//! per-request flag set, and the header map and extension bag that are
//! recycled across pipelined requests.

use crate::header::HeaderMap;
use vstd::prelude::*;

verus! {

#[verifier::external_type_specification]
#[verifier::external_body]
pub struct ExExtensions(http::Extensions);

/// Relies on `http::Extensions::new`: an empty type-keyed bag.
#[verifier::external_body]
fn extensions_new() -> (r: http::Extensions) {
    http::Extensions::new()
}

/// Per-request flag bits kept while the request's ownership is with the
/// service call.
pub struct ContextState(pub u8);

impl ContextState {
    /// Set when the current request carries an `Expect: 100-continue` header.
    pub const EXPECT: u8 = 0b_0001;

    /// Set when the current request uses the CONNECT method.
    pub const CONNECT: u8 = 0b_0010;

    /// An empty flag set.
    pub fn new() -> (r: Self)
        ensures
            r.0 == 0,
    {
        Self(0)
    }

    /// Add the given bits to the set.
    pub fn insert(&mut self, other: u8)
        ensures
            final(self).0 == (old(self).0 | other),
    {
        self.0 |= other;
    }

    /// True when every bit of `other` is present.
    pub fn contains(&self, other: u8) -> (r: bool)
        ensures
            r == ((self.0 & other) == other),
    {
        (self.0 & other) == other
    }
}

/// The kinds of connection a dispatcher distinguishes.
#[derive(Copy, Clone, PartialEq, Eq, Structural, Debug)]
pub enum ConnectionType {
    /// No request has been parsed on this connection yet.
    Init,
    /// Close connection after the response, with flush and IO shutdown.
    Close,
    /// Drop the connection after the response without flush or shutdown.
    CloseForce,
    /// Keep the connection alive after the response.
    KeepAlive,
    /// The connection is upgraded to a different protocol.
    Upgrade,
}

/// Connection-specific state used while requests are processed, holding a
/// reference to the date handle the response encoder stamps `Date:` from.
pub struct Context<'a, D, const HEADER_LIMIT: usize> {
    state: ContextState,
    ctype: ConnectionType,
    header: Option<HeaderMap>,
    extensions: Option<http::Extensions>,
    date: &'a D,
}

impl<'a, D, const HEADER_LIMIT: usize> Context<'a, D, HEADER_LIMIT> {
    /// The date handle the context was built with.
    pub closed spec fn spec_date(&self) -> &'a D {
        self.date
    }

    /// The raw per-request flag bits.
    pub closed spec fn flags(&self) -> u8 {
        self.state.0
    }

    /// The current connection type.
    pub closed spec fn spec_ctype(&self) -> ConnectionType {
        self.ctype
    }

    /// The stored header map, if one is cached for reuse.
    pub closed spec fn spec_headers(&self) -> Option<HeaderMap> {
        self.header
    }

    /// The stored extension bag, if one is cached for reuse.
    pub closed spec fn spec_extensions(&self) -> Option<http::Extensions> {
        self.extensions
    }

    /// The expect flag: the request carried `Expect: 100-continue`.
    pub open spec fn spec_is_expect(&self) -> bool {
        self.flags() & ContextState::EXPECT == ContextState::EXPECT
    }

    /// The connect flag: the request method is CONNECT.
    pub open spec fn spec_is_connect(&self) -> bool {
        self.flags() & ContextState::CONNECT == ContextState::CONNECT
    }

    /// A fresh context: no request parsed yet, no cached header map.
    pub fn new(date: &'a D) -> (r: Self)
        ensures
            r.flags() == 0,
            r.spec_ctype() == ConnectionType::Init,
            r.spec_headers() is None,
            r.spec_date() == date,
    {
        Self {
            state: ContextState::new(),
            ctype: ConnectionType::Init,
            header: None,
            extensions: Some(extensions_new()),
            date,
        }
    }

    /// Take ownership of the cached header map, or a fresh empty one.
    pub fn take_headers(&mut self) -> (r: HeaderMap)
        ensures
            final(self).spec_headers() is None,
            match old(self).spec_headers() {
                Some(m) => r == m,
                None => r@ == Seq::<(Seq<u8>, Seq<u8>)>::empty() && r.wf(),
            },
            final(self).flags() == old(self).flags(),
            final(self).spec_ctype() == old(self).spec_ctype(),
            final(self).spec_extensions() == old(self).spec_extensions(),
            final(self).spec_date() == old(self).spec_date(),
    {
        let mut tmp: Option<HeaderMap> = None;
        core::mem::swap(&mut self.header, &mut tmp);
        match tmp {
            Some(m) => m,
            None => HeaderMap::new(),
        }
    }

    /// Take ownership of the cached extension bag, or a fresh empty one.
    pub fn take_extensions(&mut self) -> (r: http::Extensions)
        ensures
            final(self).spec_extensions() is None,
            old(self).spec_extensions() matches Some(e) ==> r == e,
            final(self).flags() == old(self).flags(),
            final(self).spec_ctype() == old(self).spec_ctype(),
            final(self).spec_headers() == old(self).spec_headers(),
            final(self).spec_date() == old(self).spec_date(),
    {
        let mut tmp: Option<http::Extensions> = None;
        core::mem::swap(&mut self.extensions, &mut tmp);
        match tmp {
            Some(e) => e,
            None => extensions_new(),
        }
    }

    /// Store a drained header map for the next request.
    pub fn replace_headers(&mut self, headers: HeaderMap)
        requires
            headers@.len() == 0,
        ensures
            final(self).spec_headers() == Some(headers),
            final(self).flags() == old(self).flags(),
            final(self).spec_ctype() == old(self).spec_ctype(),
            final(self).spec_extensions() == old(self).spec_extensions(),
            final(self).spec_date() == old(self).spec_date(),
    {
        self.header = Some(headers);
    }

    /// Store a drained extension bag for the next request.
    pub fn replace_extensions(&mut self, extensions: http::Extensions)
        ensures
            final(self).spec_extensions() == Some(extensions),
            final(self).flags() == old(self).flags(),
            final(self).spec_ctype() == old(self).spec_ctype(),
            final(self).spec_headers() == old(self).spec_headers(),
            final(self).spec_date() == old(self).spec_date(),
    {
        self.extensions = Some(extensions);
    }

    /// Clear the per-request state: the connection defaults to keep-alive
    /// and every per-request flag is dropped.
    pub fn reset(&mut self)
        ensures
            final(self).spec_ctype() == ConnectionType::KeepAlive,
            final(self).flags() == 0,
            !final(self).spec_is_expect(),
            !final(self).spec_is_connect(),
            final(self).spec_headers() == old(self).spec_headers(),
            final(self).spec_extensions() == old(self).spec_extensions(),
            final(self).spec_date() == old(self).spec_date(),
    {
        self.ctype = ConnectionType::KeepAlive;
        self.state = ContextState::new();
        proof {
            assert(0u8 & 1u8 != 1u8) by (bit_vector);
            assert(0u8 & 2u8 != 2u8) by (bit_vector);
        }
    }

    /// Record that the request carries `Expect: 100-continue`.
    pub fn set_expect_header(&mut self)
        ensures
            final(self).spec_is_expect(),
            final(self).spec_is_connect() == old(self).spec_is_connect(),
            final(self).spec_ctype() == old(self).spec_ctype(),
            final(self).spec_headers() == old(self).spec_headers(),
            final(self).spec_extensions() == old(self).spec_extensions(),
            final(self).spec_date() == old(self).spec_date(),
    {
        let ghost s = self.state.0;
        self.state.insert(ContextState::EXPECT);
        proof {
            assert((s | 1u8) & 1u8 == 1u8) by (bit_vector);
            assert((s | 1u8) & 2u8 == s & 2u8) by (bit_vector);
        }
    }

    /// Record that the request method is CONNECT.
    pub fn set_connect_method(&mut self)
        ensures
            final(self).spec_is_connect(),
            final(self).spec_is_expect() == old(self).spec_is_expect(),
            final(self).spec_ctype() == old(self).spec_ctype(),
            final(self).spec_headers() == old(self).spec_headers(),
            final(self).spec_extensions() == old(self).spec_extensions(),
            final(self).spec_date() == old(self).spec_date(),
    {
        let ghost s = self.state.0;
        self.state.insert(ContextState::CONNECT);
        proof {
            assert((s | 2u8) & 2u8 == 2u8) by (bit_vector);
            assert((s | 2u8) & 1u8 == s & 1u8) by (bit_vector);
        }
    }

    /// Force-close the connection because an error happened.
    pub fn set_force_close_on_error(&mut self)
        ensures
            final(self).spec_ctype() == ConnectionType::CloseForce,
            final(self).flags() == old(self).flags(),
            final(self).spec_headers() == old(self).spec_headers(),
            final(self).spec_extensions() == old(self).spec_extensions(),
            final(self).spec_date() == old(self).spec_date(),
    {
        self.ctype = ConnectionType::CloseForce;
    }

    /// Force-close the connection because the request body was not read to
    /// its end; an upgraded connection has no such end and is left alone.
    pub fn set_force_close_on_non_eof(&mut self)
        ensures
            old(self).spec_ctype() == ConnectionType::Upgrade ==> final(self).spec_ctype()
                == ConnectionType::Upgrade,
            old(self).spec_ctype() != ConnectionType::Upgrade ==> final(self).spec_ctype()
                == ConnectionType::CloseForce,
            final(self).flags() == old(self).flags(),
            final(self).spec_headers() == old(self).spec_headers(),
            final(self).spec_extensions() == old(self).spec_extensions(),
            final(self).spec_date() == old(self).spec_date(),
    {
        if self.ctype != ConnectionType::Upgrade {
            self.ctype = ConnectionType::CloseForce;
        }
    }

    /// Set the connection type.
    pub fn set_ctype(&mut self, ctype: ConnectionType)
        ensures
            final(self).spec_ctype() == ctype,
            final(self).flags() == old(self).flags(),
            final(self).spec_headers() == old(self).spec_headers(),
            final(self).spec_extensions() == old(self).spec_extensions(),
            final(self).spec_date() == old(self).spec_date(),
    {
        self.ctype = ctype;
    }

    /// Whether the request carried `Expect: 100-continue`.
    pub fn is_expect_header(&self) -> (r: bool)
        ensures
            r == self.spec_is_expect(),
    {
        self.state.contains(ContextState::EXPECT)
    }

    /// Whether the request method is CONNECT.
    pub fn is_connect_method(&self) -> (r: bool)
        ensures
            r == self.spec_is_connect(),
    {
        self.state.contains(ContextState::CONNECT)
    }

    /// Whether the connection ends after the current response.
    pub fn is_connection_closed(&self) -> (r: bool)
        ensures
            r == (self.spec_ctype() == ConnectionType::Close || self.spec_ctype()
                == ConnectionType::CloseForce),
    {
        matches!(self.ctype, ConnectionType::Close | ConnectionType::CloseForce)
    }

    /// The current connection type.
    pub fn ctype(&self) -> (r: ConnectionType)
        ensures
            r == self.spec_ctype(),
    {
        self.ctype
    }
}

} // verus!
