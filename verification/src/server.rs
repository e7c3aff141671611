//! The server: a route table mapping (path, method) pairs to handlers,
//! and the request value handlers receive.
//!
//! Handlers are an arbitrary type `H`: the embedding program registers
//! function pointers (or any other capability values) and invokes the
//! handler that [`Server::lookup`] returns.  Accepting connections is
//! I/O and lives with the embedding program; it drives the route table
//! and the worker pool with plain values.

use vstd::prelude::*;

use crate::http::HttpMethod;
use crate::http::HttpStatus;
use crate::thread_pool::ThreadPool;

verus! {

/// A parsed request: the exact path, the method, the headers with
/// lower-cased keys (unique, in first-appearance order), and the body,
/// present exactly when the request carried a positive `content-length`.
#[derive(Debug, PartialEq, Eq)]
pub struct Request {
    pub path: String,
    pub method: HttpMethod,
    pub headers: Vec<(String, String)>,
    pub body: Option<String>,
}

/// One registered route.
pub struct Route<H> {
    pub path: String,
    pub method: HttpMethod,
    pub handler: H,
}

/// Why a registration was refused.
#[derive(Clone, Copy, PartialEq, Eq, Structural, Debug)]
pub enum RouteConflictError {
    /// The path does not start with `/`.
    BadPath,
    /// The (path, method) pair already has a handler.
    Duplicate,
}

/// The outcome of a route lookup.
pub enum LookupResult<'a, H> {
    /// A handler is registered for this exact (path, method) pair.
    Found(&'a H),
    /// No route is registered for the path: the caller answers 404.
    PathUnknown,
    /// The path is registered, but not for this method: the caller answers 405.
    MethodUnknown,
}

/// Index of the first route matching (path, method), if any.
pub open spec fn find_route<H>(rs: Seq<Route<H>>, path: Seq<char>, method: HttpMethod) -> Option<int>
    decreases rs.len(),
{
    if rs.len() == 0 {
        None
    } else if rs[0].path@ == path && rs[0].method == method {
        Some(0int)
    } else {
        match find_route(rs.drop_first(), path, method) {
            Some(i) => Some(i + 1),
            None => None,
        }
    }
}

/// Whether any route is registered for the path, whatever the method.
pub open spec fn spec_has_path<H>(rs: Seq<Route<H>>, path: Seq<char>) -> bool {
    exists|j: int| 0 <= j < rs.len() && (#[trigger] rs[j].path)@ == path
}

/// A registration is accepted exactly when the path starts with `/` and
/// the (path, method) pair has no handler yet.
pub open spec fn spec_can_register<H>(rs: Seq<Route<H>>, path: Seq<char>, method: HttpMethod) -> bool {
    &&& path.len() > 0
    &&& path[0] == '/'
    &&& find_route(rs, path, method) is None
}

/// A server instance: the route table and the worker pool's bookkeeping.
pub struct Server<H> {
    path_handlers: Vec<Route<H>>,
    /// The pool that placement decisions for accepted requests go through.
    pub thread_pool: ThreadPool,
}

impl<H> Server<H> {
    /// The registered routes, in registration order.
    pub closed spec fn spec_routes(self) -> Seq<Route<H>> {
        self.path_handlers@
    }

    /// The server's worker pool, for specification purposes.
    pub closed spec fn spec_pool(self) -> ThreadPool {
        self.thread_pool
    }

    /// No (path, method) pair is registered twice, and the pool is well formed.
    pub closed spec fn wf(self) -> bool {
        &&& forall|i: int, j: int|
            0 <= i < j < self.spec_routes().len()
                ==> !((#[trigger] self.spec_routes()[i]).path@ == (#[trigger] self.spec_routes()[j]).path@
                    && self.spec_routes()[i].method == self.spec_routes()[j].method)
        &&& self.thread_pool.wf()
    }

    /// A new server with no routes, for a machine with the given number of
    /// logical CPUs (every machine detects at least one).
    pub fn new(thread_count: usize) -> (server: Server<H>)
        requires
            1 <= thread_count,
        ensures
            server.wf(),
            server.spec_routes() == Seq::<Route<H>>::empty(),
            server.spec_pool().spec_capacity() == thread_count,
            server.spec_pool().spec_threads() == Seq::<usize>::empty(),
            server.spec_pool().spec_free() == Seq::<usize>::empty(),
    {
        Server { path_handlers: Vec::new(), thread_pool: ThreadPool::new(thread_count) }
    }

    /// Register a handler for (path, method).  Succeeds exactly when the
    /// path starts with `/` and the pair is not yet registered; on success
    /// the route is appended, otherwise nothing changes.
    #[verifier::loop_isolation(false)]
    pub fn add_router(&mut self, method: HttpMethod, path: &str, handler: H) -> (r: Result<(), RouteConflictError>)
        requires
            old(self).wf(),
        ensures
            final(self).wf(),
            final(self).spec_pool() == old(self).spec_pool(),
            r is Ok <==> spec_can_register(old(self).spec_routes(), path@, method),
            r is Ok ==> {
                &&& final(self).spec_routes().len() == old(self).spec_routes().len() + 1
                &&& final(self).spec_routes().drop_last() == old(self).spec_routes()
                &&& final(self).spec_routes().last().path@ == path@
                &&& final(self).spec_routes().last().method == method
                &&& final(self).spec_routes().last().handler == handler
            },
            r is Err ==> final(self).spec_routes() == old(self).spec_routes(),
            r == Err::<(), RouteConflictError>(RouteConflictError::BadPath)
                <==> !(path@.len() > 0 && path@[0] == '/'),
            r == Err::<(), RouteConflictError>(RouteConflictError::Duplicate)
                <==> (path@.len() > 0 && path@[0] == '/'
                    && find_route(old(self).spec_routes(), path@, method) is Some),
    {
        if path.unicode_len() == 0 || path.get_char(0) != '/' {
            return Err(RouteConflictError::BadPath);
        }
        let path_string = path.to_owned();
        let n = self.path_handlers.len();
        let mut i: usize = 0;
        while i < n
            invariant
                n == self.spec_routes().len(),
                i <= n,
                forall|j: int| 0 <= j < i
                    ==> !((#[trigger] self.spec_routes()[j]).path@ == path@
                        && self.spec_routes()[j].method == method),
                path_string@ == path@,
            decreases n - i,
        {
            if self.path_handlers[i].path == path_string && self.path_handlers[i].method == method {
                proof {
                    lemma_find_route_at(self.spec_routes(), path@, method, i as int);
                }
                return Err(RouteConflictError::Duplicate);
            }
            i = i + 1;
        }
        proof {
            lemma_find_route_none(self.spec_routes(), path@, method);
        }
        let ghost old_routes = self.spec_routes();
        self.path_handlers.push(Route { path: path_string, method, handler });
        proof {
            assert(self.spec_routes().drop_last() =~= old_routes);
            assert forall|i2: int, j2: int| 0 <= i2 < j2 < self.spec_routes().len()
                implies !((#[trigger] self.spec_routes()[i2]).path@ == (#[trigger] self.spec_routes()[j2]).path@
                    && self.spec_routes()[i2].method == self.spec_routes()[j2].method) by {
                if j2 == self.spec_routes().len() - 1 {
                    lemma_find_route_none_no_match(old_routes, path@, method, i2);
                }
            }
        }
        Ok(())
    }

    /// Register a handler for GET requests to `path`.
    pub fn get(&mut self, path: &str, handler: H) -> (r: Result<(), RouteConflictError>)
        requires
            old(self).wf(),
        ensures
            final(self).wf(),
            spec_registered(*old(self), *final(self), path@, HttpMethod::GET, handler, r),
    {
        self.add_router(HttpMethod::GET, path, handler)
    }

    /// Register a handler for POST requests to `path`.
    pub fn post(&mut self, path: &str, handler: H) -> (r: Result<(), RouteConflictError>)
        requires
            old(self).wf(),
        ensures
            final(self).wf(),
            spec_registered(*old(self), *final(self), path@, HttpMethod::POST, handler, r),
    {
        self.add_router(HttpMethod::POST, path, handler)
    }

    /// Register a handler for PUT requests to `path`.
    pub fn put(&mut self, path: &str, handler: H) -> (r: Result<(), RouteConflictError>)
        requires
            old(self).wf(),
        ensures
            final(self).wf(),
            spec_registered(*old(self), *final(self), path@, HttpMethod::PUT, handler, r),
    {
        self.add_router(HttpMethod::PUT, path, handler)
    }

    /// Register a handler for PATCH requests to `path`.
    pub fn patch(&mut self, path: &str, handler: H) -> (r: Result<(), RouteConflictError>)
        requires
            old(self).wf(),
        ensures
            final(self).wf(),
            spec_registered(*old(self), *final(self), path@, HttpMethod::PATCH, handler, r),
    {
        self.add_router(HttpMethod::PATCH, path, handler)
    }

    /// Register a handler for DELETE requests to `path`.
    pub fn delete(&mut self, path: &str, handler: H) -> (r: Result<(), RouteConflictError>)
        requires
            old(self).wf(),
        ensures
            final(self).wf(),
            spec_registered(*old(self), *final(self), path@, HttpMethod::DELETE, handler, r),
    {
        self.add_router(HttpMethod::DELETE, path, handler)
    }

    /// Register a handler for OPTIONS requests to `path`.
    pub fn option(&mut self, path: &str, handler: H) -> (r: Result<(), RouteConflictError>)
        requires
            old(self).wf(),
        ensures
            final(self).wf(),
            spec_registered(*old(self), *final(self), path@, HttpMethod::OPTIONS, handler, r),
    {
        self.add_router(HttpMethod::OPTIONS, path, handler)
    }

    /// Look a request up by exact path and method.
    #[verifier::loop_isolation(false)]
    pub fn lookup<'a>(&'a self, path: &String, method: HttpMethod) -> (r: LookupResult<'a, H>)
        ensures
            match r {
                LookupResult::Found(h) => {
                    &&& find_route(self.spec_routes(), path@, method) is Some
                    &&& *h == self.spec_routes()[find_route(self.spec_routes(), path@, method)->Some_0].handler
                },
                LookupResult::PathUnknown => !spec_has_path(self.spec_routes(), path@),
                LookupResult::MethodUnknown => spec_has_path(self.spec_routes(), path@)
                    && find_route(self.spec_routes(), path@, method) is None,
            },
    {
        let n = self.path_handlers.len();
        let mut path_seen = false;
        let mut i: usize = 0;
        while i < n
            invariant
                n == self.spec_routes().len(),
                i <= n,
                forall|j: int| 0 <= j < i
                    ==> !((#[trigger] self.spec_routes()[j]).path@ == path@
                        && self.spec_routes()[j].method == method),
                path_seen <==> exists|j: int| 0 <= j < i && (#[trigger] self.spec_routes()[j].path)@ == path@,
            decreases n - i,
        {
            let route = &self.path_handlers[i];
            if route.path == *path {
                if route.method == method {
                    proof {
                        lemma_find_route_at(self.spec_routes(), path@, method, i as int);
                    }
                    return LookupResult::Found(&route.handler);
                }
                path_seen = true;
            }
            i = i + 1;
        }
        proof {
            lemma_find_route_none(self.spec_routes(), path@, method);
        }
        if path_seen {
            LookupResult::MethodUnknown
        } else {
            LookupResult::PathUnknown
        }
    }
}

impl<'a, H> LookupResult<'a, H> {
    /// The status a dispatch miss is answered with: 404 for an unknown
    /// path, 405 for a known path with an unregistered method, and no
    /// status at all when a handler was found.
    pub fn miss_status(&self) -> (s: Option<HttpStatus>)
        ensures
            match self {
                LookupResult::Found(_) => s is None,
                LookupResult::PathUnknown => s == Some(HttpStatus::NotFound),
                LookupResult::MethodUnknown => s == Some(HttpStatus::MethodNotAllowed),
            },
    {
        match self {
            LookupResult::Found(_) => None,
            LookupResult::PathUnknown => Some(HttpStatus::NotFound),
            LookupResult::MethodUnknown => Some(HttpStatus::MethodNotAllowed),
        }
    }
}

/// What a successful or failed registration of (path, method, handler)
/// leaves behind; the contract shared by the per-method helpers.
pub open spec fn spec_registered<H>(
    old_s: Server<H>,
    new_s: Server<H>,
    path: Seq<char>,
    method: HttpMethod,
    handler: H,
    r: Result<(), RouteConflictError>,
) -> bool {
    &&& new_s.spec_pool() == old_s.spec_pool()
    &&& (r is Ok <==> spec_can_register(old_s.spec_routes(), path, method))
    &&& (r is Ok ==> {
        &&& new_s.spec_routes().len() == old_s.spec_routes().len() + 1
        &&& new_s.spec_routes().drop_last() == old_s.spec_routes()
        &&& new_s.spec_routes().last().path@ == path
        &&& new_s.spec_routes().last().method == method
        &&& new_s.spec_routes().last().handler == handler
    })
    &&& (r is Err ==> new_s.spec_routes() == old_s.spec_routes())
    &&& (r == Err::<(), RouteConflictError>(RouteConflictError::BadPath)
        <==> !(path.len() > 0 && path[0] == '/'))
    &&& (r == Err::<(), RouteConflictError>(RouteConflictError::Duplicate)
        <==> (path.len() > 0 && path[0] == '/'
            && find_route(old_s.spec_routes(), path, method) is Some))
}

/// If the route at `j` matches and none before it does, `j` is the first match.
proof fn lemma_find_route_at<H>(rs: Seq<Route<H>>, path: Seq<char>, method: HttpMethod, j: int)
    requires
        0 <= j < rs.len(),
        rs[j].path@ == path && rs[j].method == method,
        forall|k: int| 0 <= k < j
            ==> !((#[trigger] rs[k]).path@ == path && rs[k].method == method),
    ensures
        find_route(rs, path, method) == Some(j),
    decreases j,
{
    if j > 0 {
        lemma_find_route_at(rs.drop_first(), path, method, j - 1);
    }
}

/// If no route matches, the search comes back empty.
proof fn lemma_find_route_none<H>(rs: Seq<Route<H>>, path: Seq<char>, method: HttpMethod)
    requires
        forall|k: int| 0 <= k < rs.len()
            ==> !((#[trigger] rs[k]).path@ == path && rs[k].method == method),
    ensures
        find_route(rs, path, method) is None,
    decreases rs.len(),
{
    if rs.len() != 0 {
        lemma_find_route_none(rs.drop_first(), path, method);
    }
}

/// An empty search result means no route matches, in particular not the
/// one at `k`.
proof fn lemma_find_route_none_no_match<H>(rs: Seq<Route<H>>, path: Seq<char>, method: HttpMethod, k: int)
    requires
        find_route(rs, path, method) is None,
        0 <= k < rs.len(),
    ensures
        !(rs[k].path@ == path && rs[k].method == method),
    decreases k,
{
    if k > 0 {
        lemma_find_route_none_no_match(rs.drop_first(), path, method, k - 1);
    }
}

/// Appending a route that does not match (path, method) leaves that pair's
/// search result unchanged.
proof fn lemma_find_route_push<H>(rs: Seq<Route<H>>, r0: Route<H>, path: Seq<char>, method: HttpMethod)
    requires
        !(r0.path@ == path && r0.method == method),
    ensures
        find_route(rs.push(r0), path, method) == find_route(rs, path, method),
    decreases rs.len(),
{
    if rs.len() == 0 {
        assert(rs.push(r0)[0] == r0);
        assert(rs.push(r0).drop_first() =~= Seq::<Route<H>>::empty());
        assert(find_route(Seq::<Route<H>>::empty(), path, method) is None);
        assert(find_route(rs.push(r0), path, method) is None);
    } else {
        assert(rs.push(r0)[0] == rs[0]);
        assert(rs.push(r0).drop_first() =~= rs.drop_first().push(r0));
        lemma_find_route_push(rs.drop_first(), r0, path, method);
    }
}

/// Law: registering (path, method, handler) where registration is allowed
/// makes the new route the unique match for that pair — a lookup finds
/// exactly that handler — and leaves every other pair's outcome unchanged.
pub proof fn lemma_register_then_lookup<H>(rs: Seq<Route<H>>, r0: Route<H>)
    requires
        spec_can_register(rs, r0.path@, r0.method),
    ensures
        find_route(rs.push(r0), r0.path@, r0.method) == Some(rs.len() as int),
        rs.push(r0)[rs.len() as int].handler == r0.handler,
        forall|p: Seq<char>, m: HttpMethod| !(p == r0.path@ && m == r0.method)
            ==> #[trigger] find_route(rs.push(r0), p, m) == find_route(rs, p, m),
{
    assert forall|k: int| 0 <= k < rs.len()
        implies !((#[trigger] rs.push(r0)[k]).path@ == r0.path@
            && rs.push(r0)[k].method == r0.method) by {
        lemma_find_route_none_no_match(rs, r0.path@, r0.method, k);
    }
    lemma_find_route_at(rs.push(r0), r0.path@, r0.method, rs.len() as int);
    assert forall|p: Seq<char>, m: HttpMethod| !(p == r0.path@ && m == r0.method)
        implies #[trigger] find_route(rs.push(r0), p, m) == find_route(rs, p, m) by {
        lemma_find_route_push(rs, r0, p, m);
    }
}

} // verus!
