//! The client-side request builder: header and body preparation before a
//! request is handed to the sender.

use crate::digits::{dec_digits, u64_to_dec};
use crate::header::{
    content_length, content_type, json_value, lemma_known_names_lowercase, spec_content_length,
    spec_content_type, spec_json_value, spec_text_plain_value, text_plain_value, has_name,
    HeaderMap,
};
use crate::types::{Method, RequestHead, Version};
use vstd::prelude::*;

verus! {

/// The body a request will be sent with.
pub enum RequestBodyKind {
    /// No body.
    Empty,
    /// A preloaded byte slab; `Content-Length` is set to its length.
    Bytes(Vec<u8>),
    /// A caller-supplied chunk producer drives the body.
    Stream,
}

/// A request under construction, with its per-request timeout.
pub struct ClientRequest {
    pub head: RequestHead,
    pub body: RequestBodyKind,
    pub timeout_ms: u64,
}

impl ClientRequest {
    /// Begin a request from a head, with the client's request timeout.
    pub fn new(head: RequestHead, request_timeout_ms: u64) -> (r: Self)
        ensures
            r.head == head,
            r.body is Empty,
            r.timeout_ms == request_timeout_ms,
    {
        ClientRequest { head, body: RequestBodyKind::Empty, timeout_ms: request_timeout_ms }
    }

    /// The request's headers.
    pub fn headers(&self) -> (r: &HeaderMap)
        ensures
            *r == self.head.headers,
    {
        &self.head.headers
    }

    /// Set the method.
    pub fn method(self, method: Method) -> (r: Self)
        ensures
            r.head.method == method,
            r.head.uri == self.head.uri,
            r.head.version == self.head.version,
            r.head.headers == self.head.headers,
            r.body == self.body,
            r.timeout_ms == self.timeout_ms,
    {
        let ClientRequest { head, body, timeout_ms } = self;
        let RequestHead { method: _, uri, version, headers } = head;
        ClientRequest { head: RequestHead { method, uri, version, headers }, body, timeout_ms }
    }

    /// Set the version. By default the version follows the network stream.
    pub fn version(self, version: Version) -> (r: Self)
        ensures
            r.head.version == version,
            r.head.method == self.head.method,
            r.head.uri == self.head.uri,
            r.head.headers == self.head.headers,
            r.body == self.body,
            r.timeout_ms == self.timeout_ms,
    {
        let ClientRequest { head, body, timeout_ms } = self;
        let RequestHead { method, uri, version: _, headers } = head;
        ClientRequest { head: RequestHead { method, uri, version, headers }, body, timeout_ms }
    }

    /// Override the client-wide timeout for this request.
    pub fn timeout(self, timeout_ms: u64) -> (r: Self)
        ensures
            r.timeout_ms == timeout_ms,
            r.head == self.head,
            r.body == self.body,
    {
        ClientRequest { timeout_ms, ..self }
    }

    /// Use a preloaded byte slab as the body: `Content-Length` is set to
    /// its length and any earlier value of it is dropped.
    pub fn body(self, bytes: Vec<u8>) -> (r: Self)
        requires
            self.head.headers.wf(),
        ensures
            r.head.headers.wf(),
            r.head.headers@ == self.head.headers@.filter(
                |p: (Seq<u8>, Seq<u8>)| !has_name(p, spec_content_length()),
            ).push((spec_content_length(), dec_digits(bytes@.len() as nat))),
            r.body == (RequestBodyKind::Bytes(bytes)),
            r.head.method == self.head.method,
            r.head.uri == self.head.uri,
            r.head.version == self.head.version,
            r.timeout_ms == self.timeout_ms,
    {
        proof {
            lemma_known_names_lowercase();
        }
        let ClientRequest { head, body: _, timeout_ms } = self;
        let RequestHead { method, uri, version, mut headers } = head;
        let len = u64_to_dec(bytes.len() as u64);
        headers.insert(content_length().as_slice(), len);
        ClientRequest {
            head: RequestHead { method, uri, version, headers },
            body: RequestBodyKind::Bytes(bytes),
            timeout_ms,
        }
    }

    /// Use plain UTF-8 text as the body: the content type is set first,
    /// then the slab becomes the body as in `body`.
    pub fn text(self, bytes: Vec<u8>) -> (r: Self)
        requires
            self.head.headers.wf(),
        ensures
            r.head.headers.wf(),
            r.head.headers@ == self.head.headers@.filter(
                |p: (Seq<u8>, Seq<u8>)| !has_name(p, spec_content_type()),
            ).push((spec_content_type(), spec_text_plain_value())).filter(
                |p: (Seq<u8>, Seq<u8>)| !has_name(p, spec_content_length()),
            ).push((spec_content_length(), dec_digits(bytes@.len() as nat))),
            r.body == (RequestBodyKind::Bytes(bytes)),
            r.timeout_ms == self.timeout_ms,
    {
        proof {
            lemma_known_names_lowercase();
        }
        let ClientRequest { head, body, timeout_ms } = self;
        let RequestHead { method, uri, version, mut headers } = head;
        headers.insert(content_type().as_slice(), text_plain_value());
        let rebuilt = ClientRequest {
            head: RequestHead { method, uri, version, headers },
            body,
            timeout_ms,
        };
        rebuilt.body(bytes)
    }

    /// Use an already serialised JSON document as the body: the content
    /// type is set first, then the slab becomes the body as in `body`.
    pub fn json_body(self, bytes: Vec<u8>) -> (r: Self)
        requires
            self.head.headers.wf(),
        ensures
            r.head.headers.wf(),
            r.head.headers@ == self.head.headers@.filter(
                |p: (Seq<u8>, Seq<u8>)| !has_name(p, spec_content_type()),
            ).push((spec_content_type(), spec_json_value())).filter(
                |p: (Seq<u8>, Seq<u8>)| !has_name(p, spec_content_length()),
            ).push((spec_content_length(), dec_digits(bytes@.len() as nat))),
            r.body == (RequestBodyKind::Bytes(bytes)),
            r.timeout_ms == self.timeout_ms,
    {
        proof {
            lemma_known_names_lowercase();
        }
        let ClientRequest { head, body, timeout_ms } = self;
        let RequestHead { method, uri, version, mut headers } = head;
        headers.insert(content_type().as_slice(), json_value());
        let rebuilt = ClientRequest {
            head: RequestHead { method, uri, version, headers },
            body,
            timeout_ms,
        };
        rebuilt.body(bytes)
    }

    /// Use a streaming body: the headers are left alone.
    pub fn stream(self) -> (r: Self)
        ensures
            r.head == self.head,
            r.body is Stream,
            r.timeout_ms == self.timeout_ms,
    {
        ClientRequest { body: RequestBodyKind::Stream, ..self }
    }
}

} // verus!
