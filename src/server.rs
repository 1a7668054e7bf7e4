//! The embedder-facing server: it owns the route table that every accepted
//! connection is dispatched against.
use crate::request::Request;
use crate::routing::{is_first_match, RouteKey, Router};
use vstd::prelude::*;

verus! {

/// A server's configuration: its route table. A new server has no routes,
/// so every request goes unmatched until routes are added.
pub struct Server<H> {
    routes: Router<H>,
}

impl<H> View for Server<H> {
    type V = Seq<RouteKey>;

    closed spec fn view(&self) -> Seq<RouteKey> {
        self.routes@
    }
}

impl<H> Server<H> {
    /// The handlers, in the order of the table.
    pub closed spec fn handlers(&self) -> Seq<H> {
        self.routes.handlers()
    }

    /// A server with an empty route table.
    pub fn new() -> (r: Server<H>)
        ensures
            r@ == Seq::<RouteKey>::empty(),
            r.handlers() == Seq::<H>::empty(),
    {
        Server { routes: Router::new() }
    }

    /// Replaces the route table with the routes of `routes`.
    pub fn use_routes(&mut self, routes: Router<H>)
        ensures
            final(self)@ == routes@,
            final(self).handlers() == routes.handlers(),
    {
        self.routes = routes;
    }

    /// Appends a `GET` route.
    pub fn get(&mut self, path: String, handler: H)
        ensures
            final(self)@ == old(self)@.push(("GET"@, path@)),
            final(self).handlers() == old(self).handlers().push(handler),
    {
        self.routes.get(path, handler);
    }

    /// Appends a `POST` route.
    pub fn post(&mut self, path: String, handler: H)
        ensures
            final(self)@ == old(self)@.push(("POST"@, path@)),
            final(self).handlers() == old(self).handlers().push(handler),
    {
        self.routes.post(path, handler);
    }

    /// The route table.
    pub fn routes(&self) -> (r: &Router<H>)
        ensures
            r@ == self@,
            r.handlers() == self.handlers(),
    {
        &self.routes
    }

    /// The handler for a request: that of the first route whose method and
    /// path equal the request's, if there is one.
    pub fn route_for(&self, req: &Request) -> (r: Option<&H>)
        ensures
            r matches Some(h) ==> exists|i: int|
                is_first_match(self@, (req@.method, req@.path), i) && *h == self.handlers()[i],
            r is None ==> forall|j: int|
                0 <= j < self@.len() ==> self@[j] != (req@.method, req@.path),
    {
        let r = self.routes.find(req.method.as_str(), req.path.as_str());
        proof {
            if let Some(h) = r {
                let i = choose|i: int|
                    is_first_match(self.routes@, (req.method@, req.path@), i) && *h
                        == self.routes.handlers()[i];
                assert(is_first_match(self@, (req@.method, req@.path), i) && *h
                    == self.handlers()[i]);
            }
        }
        r
    }
}

} // verus!
