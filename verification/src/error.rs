//! The error taxonomy: wire-parse failures, the default server error kind,
//! and the pluggable error-translation contract.

use vstd::prelude::*;

use crate::message::{
    content_length_name, content_type_name, upsert, HttpVersion, Request, RequestModel, Response,
};
use vstd::string::StringExecFns;
use vstd::string::StringSliceAdditionalSpecFns;

verus! {

/// Raised when a request line names a verb outside the closed method set.
#[derive(Debug, Copy, Clone, PartialEq, Eq, Structural)]
pub struct InvalidMethodError;

/// Exactly one of these is produced per malformed request: which part of the
/// message failed to parse.
#[derive(Debug, PartialEq)]
pub enum RequestParseError {
    /// The header block was not valid text.
    MalformedRequest,
    /// The method token is not in the closed set.
    Method,
    /// The path token is missing, or no resource locator could be built from it.
    Route,
    /// The protocol/version token is missing or unreadable.
    Protocol,
    /// The mandatory `Host` header is absent.
    Host,
    /// The body is shorter than its declared length, or not valid text when
    /// read as text.
    Body,
    /// The named header line is malformed.
    Header(Vec<u8>),
}

/// The ghost image of a parse error, with the header name as a sequence.
pub enum ParseErrorView {
    MalformedRequest,
    Method,
    Route,
    Protocol,
    Host,
    Body,
    Header(Seq<u8>),
}

impl View for RequestParseError {
    type V = ParseErrorView;

    open spec fn view(&self) -> ParseErrorView {
        match self {
            RequestParseError::MalformedRequest => ParseErrorView::MalformedRequest,
            RequestParseError::Method => ParseErrorView::Method,
            RequestParseError::Route => ParseErrorView::Route,
            RequestParseError::Protocol => ParseErrorView::Protocol,
            RequestParseError::Host => ParseErrorView::Host,
            RequestParseError::Body => ParseErrorView::Body,
            RequestParseError::Header(name) => ParseErrorView::Header(name@),
        }
    }
}

impl RequestParseError {
    /// A short human-readable account of which part failed.
    pub fn message(&self) -> String {
        match self {
            RequestParseError::MalformedRequest => String::from_str("failed to parse request"),
            RequestParseError::Method => String::from_str("failed to parse method"),
            RequestParseError::Route => String::from_str("failed to parse route"),
            RequestParseError::Protocol => String::from_str("failed to parse protocol"),
            RequestParseError::Host => String::from_str("failed to parse host"),
            RequestParseError::Body => String::from_str("failed to parse body"),
            RequestParseError::Header(_) => String::from_str("failed to parse header"),
        }
    }
}

/// The minimal capability contract on an application's error kind: it can
/// describe itself, and it can absorb a wire-parse failure so that decode
/// errors are answered with a response rather than dropped.
pub trait ServerError: Sized {
    /// Whether this value wraps the given wire-parse failure: trivial by
    /// default, overridden by an error kind whose callers should know more.
    open spec fn wraps_parse(self, err: ParseErrorView) -> bool {
        true
    }

    /// A human-readable description of the failure.
    fn message(&self) -> String;

    /// Wrap a wire-level parse failure.
    fn from_parse(err: RequestParseError) -> (r: Self)
        ensures
            r.wraps_parse(err@),
    ;
}

/// The default error kind: a closed taxonomy of "resource not found",
/// "the request failed to parse", and an opaque internal failure carrying
/// its underlying cause as text.
#[derive(Debug, PartialEq)]
pub enum DefaultError {
    NotFound,
    RequestParse(RequestParseError),
    Other(String),
}

impl ServerError for DefaultError {
    open spec fn wraps_parse(self, err: ParseErrorView) -> bool {
        self matches DefaultError::RequestParse(p) && p@ == err
    }

    fn message(&self) -> String {
        match self {
            DefaultError::NotFound => String::from_str("could not find the requested resource"),
            DefaultError::RequestParse(_) => String::from_str("failed to parse request"),
            DefaultError::Other(cause) => String::from_str(cause.as_str()),
        }
    }

    fn from_parse(err: RequestParseError) -> (r: Self)
        ensures
            r == DefaultError::RequestParse(err),
    {
        DefaultError::RequestParse(err)
    }
}

/// The pluggable error-translation contract: convert a handler's (or the
/// decoder's) failure into the response sent back on the wire. `post` is the
/// relation each translation satisfies; every implementation defines it and
/// proves `translate` against it, so callers can say which response an error
/// was answered with.
pub trait ErrorAction<E: ServerError>: Sized {
    /// The relation between a request, an error, and the translated
    /// response: trivial by default, overridden by a translator whose
    /// callers should know more.
    open spec fn post(self, request: RequestModel, err: E, response: Response) -> bool {
        true
    }

    fn translate(&self, request: &Request, err: E) -> (r: Response)
        ensures
            self.post(request.model(), err, r),
    ;
}

/// The default error translator: "not found" becomes a 404, and every parse
/// or opaque failure a 500 with a generic body, so no internal detail leaks
/// to the client.
#[derive(Debug, Clone, Copy, PartialEq, Eq, Structural)]
pub struct DefaultErrorAction;

impl ErrorAction<DefaultError> for DefaultErrorAction {
    /// The fixed mapping: 404 `Not found` for a missing resource, 500 with a
    /// generic body for a parse or opaque failure, framed as a text response.
    open spec fn post(self, request: RequestModel, err: DefaultError, response: Response) -> bool {
        &&& response.model().status == (match err {
            DefaultError::NotFound => 404u16,
            _ => 500u16,
        })
        &&& response.model().body == (match err {
            DefaultError::NotFound => "Not found".spec_bytes(),
            DefaultError::RequestParse(_) => "Malformed request".spec_bytes(),
            DefaultError::Other(_) => "Internal server error".spec_bytes(),
        })
        &&& response.model().headers == upsert(
            upsert(
                Seq::<(Seq<u8>, Seq<u8>)>::empty(),
                content_length_name(),
                crate::bytes::dec_str(response.model().body.len()),
            ),
            content_type_name(),
            "text/html".spec_bytes(),
        )
        &&& response.model().protocol == Seq::<u8>::empty()
        &&& response.model().version == (HttpVersion { major: 0, minor: 0 })
    }

    fn translate(&self, _request: &Request, err: DefaultError) -> Response {
        match err {
            DefaultError::NotFound => Response::text("Not found", 404),
            DefaultError::RequestParse(_) => Response::text("Malformed request", 500),
            DefaultError::Other(_) => Response::text("Internal server error", 500),
        }
    }
}

} // verus!
