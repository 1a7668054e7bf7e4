//! The route table: `(method, path, handler)` entries in the order they were
//! added, looked up by exact method and path, first entry winning.
use vstd::prelude::*;

verus! {

/// The method and path under which a route is registered.
pub type RouteKey = (Seq<char>, Seq<char>);

/// One entry of the table. The handler is whatever the embedder invokes.
pub struct Route<H> {
    pub method: String,
    pub path: String,
    pub handler: H,
}

/// The first entry registered under `key`.
pub open spec fn is_first_match(keys: Seq<RouteKey>, key: RouteKey, i: int) -> bool {
    &&& 0 <= i < keys.len()
    &&& keys[i] == key
    &&& forall|j: int| 0 <= j < i ==> keys[j] != key
}

/// An ordered route table, built before serving starts.
pub struct Router<H> {
    routes: Vec<Route<H>>,
}

impl<H> View for Router<H> {
    type V = Seq<RouteKey>;

    closed spec fn view(&self) -> Seq<RouteKey> {
        self.routes@.map_values(|r: Route<H>| (r.method@, r.path@))
    }
}

impl<H> Router<H> {
    /// The handlers, in the order of the table.
    pub closed spec fn handlers(&self) -> Seq<H> {
        self.routes@.map_values(|r: Route<H>| r.handler)
    }

    /// An empty table.
    pub fn new() -> (r: Router<H>)
        ensures
            r@ == Seq::<RouteKey>::empty(),
            r.handlers() == Seq::<H>::empty(),
    {
        let r = Router { routes: Vec::new() };
        assert(r@ =~= Seq::<RouteKey>::empty());
        assert(r.handlers() =~= Seq::<H>::empty());
        r
    }

    /// Appends a route.
    pub fn add(&mut self, method: String, path: String, handler: H)
        ensures
            final(self)@ == old(self)@.push((method@, path@)),
            final(self).handlers() == old(self).handlers().push(handler),
    {
        self.routes.push(Route { method, path, handler });
        assert(self@ =~= old(self)@.push((method@, path@)));
        assert(self.handlers() =~= old(self).handlers().push(handler));
    }

    /// Appends a `GET` route.
    pub fn get(&mut self, path: String, handler: H)
        ensures
            final(self)@ == old(self)@.push(("GET"@, path@)),
            final(self).handlers() == old(self).handlers().push(handler),
    {
        self.add("GET".to_owned(), path, handler);
    }

    /// Appends a `POST` route.
    pub fn post(&mut self, path: String, handler: H)
        ensures
            final(self)@ == old(self)@.push(("POST"@, path@)),
            final(self).handlers() == old(self).handlers().push(handler),
    {
        self.add("POST".to_owned(), path, handler);
    }

    /// Hands over all routes, in order.
    pub fn get_routes(self) -> (r: Option<Vec<Route<H>>>)
        ensures
            r matches Some(v) && v@.map_values(|e: Route<H>| (e.method@, e.path@)) == self@
                && v@.map_values(|e: Route<H>| e.handler) == self.handlers(),
    {
        Some(self.routes)
    }

    /// The number of routes.
    pub fn len(&self) -> (r: usize)
        ensures
            r == self@.len(),
    {
        self.routes.len()
    }

    /// The position of the first route registered under `method` and `path`.
    pub fn lookup(&self, method: &str, path: &str) -> (r: Option<usize>)
        ensures
            r matches Some(i) ==> is_first_match(self@, (method@, path@), i as int),
            r is None ==> forall|j: int| 0 <= j < self@.len() ==> self@[j] != (method@, path@),
    {
        let m = method.to_owned();
        let p = path.to_owned();
        let mut i: usize = 0;
        while i < self.routes.len()
            invariant
                m@ == method@,
                p@ == path@,
                i <= self@.len(),
                self@.len() == self.routes@.len(),
                forall|j: int| 0 <= j < i ==> self@[j] != (method@, path@),
            decreases self.routes.len() - i,
        {
            assert(self@[i as int] == (self.routes@[i as int].method@, self.routes@[i as int].path@));
            if self.routes[i].method == m && self.routes[i].path == p {
                return Some(i);
            }
            i = i + 1;
        }
        None
    }

    /// The handler of the route at position `i`.
    pub fn handler(&self, i: usize) -> (r: &H)
        requires
            i < self@.len(),
        ensures
            *r == self.handlers()[i as int],
    {
        &self.routes[i].handler
    }

    /// The handler of the first route registered under `method` and `path`.
    pub fn find(&self, method: &str, path: &str) -> (r: Option<&H>)
        ensures
            r matches Some(h) ==> exists|i: int|
                is_first_match(self@, (method@, path@), i) && *h == self.handlers()[i],
            r is None ==> forall|j: int| 0 <= j < self@.len() ==> self@[j] != (method@, path@),
    {
        match self.lookup(method, path) {
            Some(i) => Some(self.handler(i)),
            None => None,
        }
    }
}

} // verus!
