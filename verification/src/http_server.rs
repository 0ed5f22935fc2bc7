//! The server: a two-phase builder (routes are registered strictly before
//! activation) and the per-exchange pipeline that ties decode, routing,
//! handler dispatch, error translation, and encoding together with the
//! keep-alive policy.

use core::marker::PhantomData;
use vstd::prelude::*;

use crate::error::{DefaultError, DefaultErrorAction, ErrorAction, ServerError};
use crate::message::{
    lookup_header, spec_decode, spec_encode, HttpVersion, Request, RequestModel, Response,
    ResponseModel,
};
use crate::method::HttpMethod;
use crate::route::{eff_path, split_route_spec, NotFoundAction, RouteAction, Router};
use vstd::string::StringSliceAdditionalSpecFns;

verus! {

/// How long a connection may sit idle, in seconds, before it is closed.
pub const IDLE_TIMEOUT_SECS: u64 = 4;

/// Whether an idle wait has outlived the idle threshold.
pub fn idle_expired(elapsed_secs: u64) -> (r: bool)
    ensures
        r == (elapsed_secs > IDLE_TIMEOUT_SECS),
{
    elapsed_secs > IDLE_TIMEOUT_SECS
}

/// The lowercased `connection` header name.
pub open spec fn connection_key() -> Seq<u8> {
    seq![99u8, 111u8, 110u8, 110u8, 101u8, 99u8, 116u8, 105u8, 111u8, 110u8]
}

/// The `close` header value.
pub open spec fn close_value() -> Seq<u8> {
    seq![99u8, 108u8, 111u8, 115u8, 101u8]
}

fn connection_key_vec() -> (r: Vec<u8>)
    ensures
        r@ == connection_key(),
{
    let mut v: Vec<u8> = Vec::new();
    v.push(99);
    v.push(111);
    v.push(110);
    v.push(110);
    v.push(101);
    v.push(99);
    v.push(116);
    v.push(105);
    v.push(111);
    v.push(110);
    proof {
        assert(v@ =~= connection_key());
    }
    v
}

fn close_value_vec() -> (r: Vec<u8>)
    ensures
        r@ == close_value(),
{
    let mut v: Vec<u8> = Vec::new();
    v.push(99);
    v.push(108);
    v.push(111);
    v.push(115);
    v.push(101);
    proof {
        assert(v@ =~= close_value());
    }
    v
}

/// The keep-alive decision: a connection stays open unless the request speaks
/// HTTP/1.0 semantics or carries a `Connection: close` header.
pub open spec fn spec_keep_alive(m: RequestModel) -> bool {
    &&& m.version != (HttpVersion { major: 1, minor: 0 })
    &&& lookup_header(m.headers, connection_key()) != Some(close_value())
}

/// Decide keep-alive for a decoded request.
pub fn keep_alive(req: &Request) -> (r: bool)
    ensures
        r == spec_keep_alive(req.model()),
{
    if req.version.major == 1 && req.version.minor == 0 {
        return false;
    }
    let key = connection_key_vec();
    match req.header(key.as_slice()) {
        Some(v) => {
            let close = close_value_vec();
            !crate::bytes::bytes_eq(v.as_slice(), close.as_slice())
        },
        None => true,
    }
}

/// A response as the wire sees it: stamped with the originating request's
/// protocol scheme and version.
pub open spec fn stamped(resp: ResponseModel, m: RequestModel) -> ResponseModel {
    ResponseModel { protocol: m.protocol, version: m.version, ..resp }
}

/// The placeholder request a decode failure is translated against: no request
/// could be built, so the error handler sees a minimal root request from the
/// same peer.
pub open spec fn placeholder_model() -> RequestModel {
    RequestModel {
        method: HttpMethod::Get,
        route: seq![47u8],
        protocol: seq![104u8, 116u8, 116u8, 112u8],
        version: HttpVersion { major: 1, minor: 1 },
        host: Seq::empty(),
        headers: Seq::empty(),
        query: Seq::empty(),
        body: Seq::empty(),
    }
}

/// A router update as the registration methods promise it: the not-found
/// action is kept, the registered effective path routes to the new action,
/// and every other lookup is unchanged.
pub open spec fn spec_registered<R: Copy>(
    before: Router<R>,
    after: Router<R>,
    method: HttpMethod,
    route: Seq<u8>,
    action: R,
) -> bool {
    &&& after.not_found_action == before.not_found_action
    &&& forall|m: HttpMethod, path: Seq<u8>| #![trigger after.route_action(m, path)]
        after.route_action(m, path) == (if m == method && eff_path(split_route_spec(path))
            == eff_path(split_route_spec(route)) {
            action
        } else {
            before.route_action(m, path)
        })
}

/// The server configuration: mutable strictly before activation, shared and
/// read-only afterwards.
#[verifier::reject_recursive_types(E)]
#[verifier::reject_recursive_types(R)]
pub struct HttpServer<E: ServerError, R: RouteAction<E>, F: ErrorAction<E>> {
    pub router: Router<R>,
    pub error_handler: F,
    pub active: bool,
    pub error_kind: PhantomData<E>,
}

impl HttpServer<DefaultError, NotFoundAction, DefaultErrorAction> {
    /// A server with the default not-found action and error translator.
    pub fn default() -> (r: Self)
        ensures
            !r.active,
            forall|m: HttpMethod, path: Seq<u8>| #![trigger r.router.route_action(m, path)]
                r.router.route_action(m, path) == NotFoundAction,
    {
        Self::new(NotFoundAction, DefaultErrorAction)
    }
}

impl<E: ServerError, R: RouteAction<E>, F: ErrorAction<E>> HttpServer<E, R, F> {
    /// A fresh, inactive server: every lookup yields the not-found action.
    pub fn new(not_found_action: R, error_handler: F) -> (r: Self)
        ensures
            !r.active,
            r.error_handler == error_handler,
            r.router.not_found_action == not_found_action,
            forall|m: HttpMethod, path: Seq<u8>| #![trigger r.router.route_action(m, path)]
                r.router.route_action(m, path) == not_found_action,
    {
        HttpServer {
            router: Router::new(not_found_action),
            error_handler,
            active: false,
            error_kind: PhantomData,
        }
    }

    /// Registration after activation is a programmer error: the original
    /// configuration contract aborts there, so an active server is excluded.
    pub fn panic_if_active(&self)
        requires
            !self.active,
    {
    }

    /// Mutable access to the routing state, legal only before activation.
    pub fn edit_router(&mut self) -> (r: &mut Router<R>)
        requires
            !old(self).active,
        ensures
            *r == old(self).router,
            final(self).router == *final(r),
            final(self).error_handler == old(self).error_handler,
            final(self).active == old(self).active,
    {
        self.panic_if_active();
        &mut self.router
    }

    /// Register a handler for a verb and path pattern; only legal before the
    /// server is activated. The last registration of a path wins, and every
    /// other route is unaffected.
    pub fn route(&mut self, method: HttpMethod, route: &str, action: R)
        requires
            !old(self).active,
        ensures
            final(self).active == old(self).active,
            final(self).error_handler == old(self).error_handler,
            spec_registered(
                old(self).router,
                final(self).router,
                method,
                route.spec_bytes(),
                action,
            ),
    {
        self.panic_if_active();
        self.router.add(method, route, action);
    }

    pub fn get(&mut self, route: &str, action: R)
        requires
            !old(self).active,
        ensures
            final(self).active == old(self).active,
            final(self).error_handler == old(self).error_handler,
            spec_registered(
                old(self).router,
                final(self).router,
                HttpMethod::Get,
                route.spec_bytes(),
                action,
            ),
    {
        self.route(HttpMethod::Get, route, action);
    }

    pub fn post(&mut self, route: &str, action: R)
        requires
            !old(self).active,
        ensures
            final(self).active == old(self).active,
            final(self).error_handler == old(self).error_handler,
            spec_registered(
                old(self).router,
                final(self).router,
                HttpMethod::Post,
                route.spec_bytes(),
                action,
            ),
    {
        self.route(HttpMethod::Post, route, action);
    }

    pub fn put(&mut self, route: &str, action: R)
        requires
            !old(self).active,
        ensures
            final(self).active == old(self).active,
            final(self).error_handler == old(self).error_handler,
            spec_registered(
                old(self).router,
                final(self).router,
                HttpMethod::Put,
                route.spec_bytes(),
                action,
            ),
    {
        self.route(HttpMethod::Put, route, action);
    }

    pub fn patch(&mut self, route: &str, action: R)
        requires
            !old(self).active,
        ensures
            final(self).active == old(self).active,
            final(self).error_handler == old(self).error_handler,
            spec_registered(
                old(self).router,
                final(self).router,
                HttpMethod::Patch,
                route.spec_bytes(),
                action,
            ),
    {
        self.route(HttpMethod::Patch, route, action);
    }

    pub fn delete(&mut self, route: &str, action: R)
        requires
            !old(self).active,
        ensures
            final(self).active == old(self).active,
            final(self).error_handler == old(self).error_handler,
            spec_registered(
                old(self).router,
                final(self).router,
                HttpMethod::Delete,
                route.spec_bytes(),
                action,
            ),
    {
        self.route(HttpMethod::Delete, route, action);
    }

    /// Freeze the configuration: from here on the router and error handler
    /// are shared, read-only, by every connection.
    pub fn activate(&mut self)
        ensures
            final(self).active,
            final(self).router == old(self).router,
            final(self).error_handler == old(self).error_handler,
    {
        self.active = true;
    }

    /// One full exchange on a connection: decode the buffer, resolve and
    /// invoke the matching handler (translating a handler failure, or the
    /// decode failure itself, through the error handler), stamp the response
    /// with the request's protocol and version, and encode it. The bytes are
    /// pinned to the resolved action: they encode the stamped response the
    /// action returned, or — exactly when it failed — the one the error
    /// handler translated that failure to. The second component is the
    /// keep-alive decision; a request that could not be decoded is answered
    /// through the error handler against a placeholder request, and closes
    /// the connection.
    pub fn handle_exchange(&self, peer: String, data: &[u8]) -> (r: (Vec<u8>, bool))
        ensures
            match spec_decode(data@) {
                Ok(m) => {
                    &&& r.1 == spec_keep_alive(m)
                    &&& exists|res: Result<Response, E>|
                        #![trigger self.router.route_action(m.method, m.route).post(m, res)]
                        {
                            &&& self.router.route_action(m.method, m.route).post(m, res)
                            &&& (res matches Ok(resp) ==> r.0@ == spec_encode(
                                stamped(resp.model(), m),
                            ))
                            &&& (res is Err ==> exists|tr: Response|
                                #![trigger self.error_handler.post(m, res->Err_0, tr)]
                                {
                                    &&& self.error_handler.post(m, res->Err_0, tr)
                                    &&& r.0@ == spec_encode(stamped(tr.model(), m))
                                })
                        }
                },
                Err(pe) => {
                    &&& r.1 == false
                    &&& exists|e2: E, tr: Response|
                        #![trigger self.error_handler.post(placeholder_model(), e2, tr)]
                        {
                            &&& e2.wraps_parse(pe)
                            &&& self.error_handler.post(placeholder_model(), e2, tr)
                            &&& r.0@ == spec_encode(stamped(tr.model(), placeholder_model()))
                        }
                },
            },
    {
        let peer_copy = peer.clone();
        match Request::from_bytes(peer, data) {
            Ok(req) => {
                let ghost m = req.model();
                let action = self.router.get(req.method(), req.route().as_slice());
                proof {
                    assert(action == self.router.route_action(m.method, m.route));
                }
                let result = action.invoke(&req);
                let ghost gres = result;
                let mut response = match result {
                    Ok(resp) => resp,
                    Err(err) => self.error_handler.translate(&req, err),
                };
                let ghost gtr = response;
                proof {
                    assert(action.post(m, gres));
                    match gres {
                        Ok(resp) => assert(gtr == resp),
                        Err(e) => assert(self.error_handler.post(m, e, gtr)),
                    }
                }
                response.fill_from(&req);
                let keep = keep_alive(&req);
                let bytes = response.to_bytes();
                proof {
                    assert(bytes@ == spec_encode(stamped(gtr.model(), m)));
                    match gres {
                        Ok(resp) => {
                            assert(self.router.route_action(m.method, m.route).post(m, gres)
                                && bytes@ == spec_encode(stamped(resp.model(), m)));
                        },
                        Err(e) => {
                            assert(self.router.route_action(m.method, m.route).post(m, gres)
                                && self.error_handler.post(m, e, gtr) && bytes@ == spec_encode(
                                stamped(gtr.model(), m),
                            ));
                        },
                    }
                }
                (bytes, keep)
            },
            Err(err) => {
                // No request could be decoded: surface the parse failure to
                // the error handler against a placeholder request, and close.
                let ghost pe = err@;
                let mut root: Vec<u8> = Vec::new();
                root.push(47);
                let mut scheme: Vec<u8> = Vec::new();
                scheme.push(104);
                scheme.push(116);
                scheme.push(116);
                scheme.push(112);
                let placeholder = Request {
                    peer: peer_copy,
                    method: HttpMethod::Get,
                    route: root,
                    protocol: scheme,
                    version: HttpVersion { major: 1, minor: 1 },
                    host: Vec::new(),
                    headers: Vec::new(),
                    query: Vec::new(),
                    body: Vec::new(),
                };
                proof {
                    assert(placeholder.model().route =~= placeholder_model().route);
                    assert(placeholder.model().protocol =~= placeholder_model().protocol);
                    assert(placeholder.model().host =~= placeholder_model().host);
                    assert(placeholder.model().headers =~= placeholder_model().headers);
                    assert(placeholder.model().query =~= placeholder_model().query);
                    assert(placeholder.model().body =~= placeholder_model().body);
                    assert(placeholder.model() == placeholder_model());
                }
                let wrapped = E::from_parse(err);
                let ghost ge = wrapped;
                let mut response = self.error_handler.translate(&placeholder, wrapped);
                let ghost gtr = response;
                proof {
                    assert(ge.wraps_parse(pe));
                    assert(self.error_handler.post(placeholder_model(), ge, gtr));
                }
                response.fill_from(&placeholder);
                let bytes = response.to_bytes();
                proof {
                    assert(ge.wraps_parse(pe) && self.error_handler.post(
                        placeholder_model(),
                        ge,
                        gtr,
                    ) && bytes@ == spec_encode(stamped(gtr.model(), placeholder_model())));
                }
                (bytes, false)
            },
        }
    }
}

} // verus!
