//! A minimal embeddable HTTP/1.x server library: a wire-protocol codec that
//! decodes raw request bytes and encodes responses, a per-verb routing tree
//! with a not-found fallback, a pluggable error-translation contract, and the
//! per-exchange pipeline with its keep-alive and idle-timeout policy. The
//! decoder, the router and the policies carry full functional contracts; the
//! socket loop around them lives outside the library.

pub mod bytes;
pub mod content_type;
pub mod error;
pub mod http_server;
pub mod message;
pub mod method;
pub mod route;
