//! Routing: an ordered table of path and method predicates, each bound to a
//! handler. The first route that accepts a request answers it.

use crate::http::{HttpCode, Method};
use crate::request::{request, ParseError, Request, RequestBuffer, RequestView};
use crate::response::{encode, Response, ResponseView};
use crate::text::{first_index, lemma_first_index_is, starts_with, str_eq};
use vstd::prelude::*;
use vstd::string::StringExecFns;
use vstd::utf8::encode_utf8;

verus! {

/// How a route's path is held against a request's path.
#[derive(Clone, Copy, Debug, PartialEq, Eq, Structural)]
pub enum ComparePath {
    /// The two paths are the same.
    Exact,
    /// The request's path starts with the route's path, byte for byte. No
    /// segment boundary is looked for.
    Prefix,
}

/// The path rule: equality, or a literal byte prefix.
pub open spec fn path_matches(how: ComparePath, route_path: Seq<char>, path: Seq<char>) -> bool {
    match how {
        ComparePath::Exact => route_path == path,
        ComparePath::Prefix => encode_utf8(route_path).is_prefix_of(encode_utf8(path)),
    }
}

/// A path, a way to compare it, a set of methods and the handler bound to
/// them.
pub struct Route<H: Fn(Request) -> Response> {
    path: String,
    handler: H,
    compare_path: ComparePath,
    methods: Vec<Method>,
}

impl<H: Fn(Request) -> Response> Route<H> {
    /// The handler can be called on every request.
    #[verifier::type_invariant]
    spec fn handler_is_total(&self) -> bool {
        forall|req: Request| call_requires(self.handler, (req,))
    }

    /// The route's path.
    pub closed spec fn path(&self) -> Seq<char> {
        self.path@
    }

    /// The route's handler.
    pub closed spec fn handler(&self) -> H {
        self.handler
    }

    /// How the route's path is compared.
    pub closed spec fn compare_path(&self) -> ComparePath {
        self.compare_path
    }

    /// The methods the route answers.
    pub closed spec fn methods(&self) -> Seq<Method> {
        self.methods@
    }

    /// The route accepts a request whose method is one of the route's
    /// methods and whose path meets the path rule.
    pub open spec fn accepts(&self, req: RequestView) -> bool {
        path_matches(self.compare_path(), self.path(), req.path) && self.methods().contains(
            req.method,
        )
    }

    fn answers(&self, method: Method) -> (b: bool)
        ensures
            b == self.methods().contains(method),
    {
        let mut i: usize = 0;
        while i < self.methods.len()
            invariant
                i <= self.methods.len(),
                forall|j: int| 0 <= j < i ==> self.methods@[j] != method,
            decreases self.methods.len() - i,
        {
            if self.methods[i] == method {
                return true;
            }
            i += 1;
        }
        false
    }

    /// Tells whether the route accepts `req`.
    pub fn matches(&self, req: &Request) -> (b: bool)
        ensures
            b == self.accepts(req@),
    {
        let path_bool = match self.compare_path {
            ComparePath::Exact => str_eq(self.path.as_str(), req.path()),
            ComparePath::Prefix => starts_with(req.path().as_bytes(), self.path.as_str().as_bytes()),
        };
        path_bool && self.answers(req.method())
    }

    /// A route that answers GET requests.
    pub fn get(path: &str, handler: H, compare_path: ComparePath) -> (route: Self)
        requires
            forall|req: Request| call_requires(handler, (req,)),
        ensures
            route.path() == path@,
            route.handler() == handler,
            route.compare_path() == compare_path,
            route.methods() == seq![Method::Get],
    {
        let mut methods: Vec<Method> = Vec::new();
        methods.push(Method::Get);
        Route { path: String::from_str(path), handler, compare_path, methods }
    }

    /// A route that answers POST requests.
    pub fn post(path: &str, handler: H, compare_path: ComparePath) -> (route: Self)
        requires
            forall|req: Request| call_requires(handler, (req,)),
        ensures
            route.path() == path@,
            route.handler() == handler,
            route.compare_path() == compare_path,
            route.methods() == seq![Method::Post],
    {
        let mut methods: Vec<Method> = Vec::new();
        methods.push(Method::Post);
        Route { path: String::from_str(path), handler, compare_path, methods }
    }
}

impl<H: Fn(Request) -> Response + Copy> Clone for Route<H> {
    fn clone(&self) -> (route: Self)
        ensures
            route.path() == self.path(),
            route.handler() == self.handler(),
            route.compare_path() == self.compare_path(),
            route.methods() == self.methods(),
    {
        let mut methods: Vec<Method> = Vec::new();
        let mut i: usize = 0;
        while i < self.methods.len()
            invariant
                i <= self.methods.len(),
                methods@ == self.methods@.take(i as int),
            decreases self.methods.len() - i,
        {
            methods.push(self.methods[i]);
            i += 1;
        }
        proof {
            use_type_invariant(self);
        }
        Route {
            path: self.path.clone(),
            handler: self.handler,
            compare_path: self.compare_path,
            methods,
        }
    }
}

/// For each route in order, whether it accepts `req`.
pub open spec fn accepting<H: Fn(Request) -> Response>(
    routes: Seq<Route<H>>,
    req: RequestView,
) -> Seq<bool> {
    routes.map_values(|route: Route<H>| route.accepts(req))
}

/// The position of the first route that accepts `req`, if any does.
pub open spec fn first_match<H: Fn(Request) -> Response>(
    routes: Seq<Route<H>>,
    req: RequestView,
) -> Option<int> {
    let i = first_index(accepting(routes, req), true);
    if i < routes.len() {
        Some(i as int)
    } else {
        None
    }
}

/// What a request gets that no route accepts: not found, no header fields,
/// an empty body.
pub open spec fn not_found() -> ResponseView {
    ResponseView { code: HttpCode::NotFound, headers: Seq::empty(), body: Seq::empty() }
}

/// `res` is an answer of `routes` to `req`: what the handler of the first
/// accepting route returns for `req`, or `not_found` where none accepts.
pub open spec fn answered<H: Fn(Request) -> Response>(
    routes: Seq<Route<H>>,
    req: Request,
    res: Response,
) -> bool {
    match first_match(routes, req@) {
        Some(i) => call_ensures(routes[i].handler(), (req,), res),
        None => res@ == not_found(),
    }
}

/// `route` binds `handler` to `method` on `path`, compared as `how` says.
pub open spec fn binds<H: Fn(Request) -> Response>(
    route: Route<H>,
    path: Seq<char>,
    how: ComparePath,
    method: Method,
    handler: H,
) -> bool {
    &&& route.path() == path
    &&& route.compare_path() == how
    &&& route.methods() == seq![method]
    &&& route.handler() == handler
}

/// The route table. Routes are tried in the order in which they were added.
pub struct Router<H: Fn(Request) -> Response> {
    routes: Vec<Route<H>>,
}

impl<H: Fn(Request) -> Response> Default for Router<H> {
    /// A table without routes.
    fn default() -> (router: Self)
        ensures
            router.routes() == Seq::<Route<H>>::empty(),
    {
        Router { routes: Vec::new() }
    }
}

impl<H: Fn(Request) -> Response + Copy> Clone for Router<H> {
    fn clone(&self) -> (router: Self)
        ensures
            router.routes().len() == self.routes().len(),
            forall|i: int|
                0 <= i < self.routes().len() ==> {
                    &&& (#[trigger] router.routes()[i]).path() == self.routes()[i].path()
                    &&& router.routes()[i].handler() == self.routes()[i].handler()
                    &&& router.routes()[i].compare_path() == self.routes()[i].compare_path()
                    &&& router.routes()[i].methods() == self.routes()[i].methods()
                },
    {
        let mut routes: Vec<Route<H>> = Vec::new();
        let mut i: usize = 0;
        while i < self.routes.len()
            invariant
                i <= self.routes.len(),
                routes@.len() == i,
                forall|j: int|
                    0 <= j < i ==> {
                        &&& (#[trigger] routes@[j]).path() == self.routes@[j].path()
                        &&& routes@[j].handler() == self.routes@[j].handler()
                        &&& routes@[j].compare_path() == self.routes@[j].compare_path()
                        &&& routes@[j].methods() == self.routes@[j].methods()
                    },
            decreases self.routes.len() - i,
        {
            routes.push(self.routes[i].clone());
            i += 1;
        }
        Router { routes }
    }
}

impl<H: Fn(Request) -> Response> Router<H> {
    /// The routes in the order in which they were added.
    pub closed spec fn routes(&self) -> Seq<Route<H>> {
        self.routes@
    }

    /// Adds `route` behind the routes already there.
    pub fn add_route(&mut self, route: Route<H>)
        ensures
            final(self).routes() == old(self).routes().push(route),
    {
        self.routes.push(route);
    }

    /// Answers `req`: the first route that accepts it has its handler
    /// called on it, and what the handler returns is returned as it is.
    /// Where no route accepts the request, the answer is `not_found`.
    pub fn route(&self, req: Request) -> (res: Response)
        ensures
            answered(self.routes(), req, res),
    {
        let ghost flags = accepting(self.routes(), req@);
        let mut i: usize = 0;
        while i < self.routes.len()
            invariant
                i <= self.routes.len(),
                flags == accepting(self.routes(), req@),
                forall|j: int| 0 <= j < i ==> !flags[j],
            decreases self.routes.len() - i,
        {
            let route = &self.routes[i];
            if route.matches(&req) {
                proof {
                    use_type_invariant(route);
                    lemma_first_index_is(flags, true, i as int);
                }
                return (route.handler)(req);
            }
            i += 1;
        }
        proof {
            lemma_first_index_is(flags, true, i as int);
        }
        Response::from(HttpCode::NotFound)
    }

    /// One connection's work between its read and its write: the bytes
    /// received are read as a request, the request is answered, and the
    /// answer is put into wire form. Bytes that are no request give the
    /// parser's error.
    pub fn respond(&self, received: Vec<u8>) -> (r: Result<Vec<u8>, ParseError>)
        ensures
            match request(received@) {
                Err(e) => r == Err::<Vec<u8>, _>(e),
                Ok(view) => r is Ok && exists|req: Request, res: Response|
                    {
                        &&& req@ == view
                        &&& #[trigger] answered(self.routes(), req, res)
                        &&& r->Ok_0@ == encode(res@)
                    },
            },
    {
        let mut req_buf = RequestBuffer::new(received);
        match Request::try_parse(&mut req_buf) {
            Err(e) => Err(e),
            Ok(req) => Ok(self.route(req).into_bytes()),
        }
    }

    /// The default table, in this order: GET under `/echo`, GET on `/`, GET
    /// on `/user-agent`, GET under `/files`, POST under `/files`.
    pub fn with_default_routes(echo: H, ok: H, user_agent: H, get_file: H, post_file: H) -> (router:
        Self)
        requires
            forall|req: Request| call_requires(echo, (req,)),
            forall|req: Request| call_requires(ok, (req,)),
            forall|req: Request| call_requires(user_agent, (req,)),
            forall|req: Request| call_requires(get_file, (req,)),
            forall|req: Request| call_requires(post_file, (req,)),
        ensures
            router.routes().len() == 5,
            binds(router.routes()[0], "/echo"@, ComparePath::Prefix, Method::Get, echo),
            binds(router.routes()[1], "/"@, ComparePath::Exact, Method::Get, ok),
            binds(router.routes()[2], "/user-agent"@, ComparePath::Exact, Method::Get, user_agent),
            binds(router.routes()[3], "/files"@, ComparePath::Prefix, Method::Get, get_file),
            binds(router.routes()[4], "/files"@, ComparePath::Prefix, Method::Post, post_file),
    {
        let mut router = Router::default();
        router.add_route(Route::get("/echo", echo, ComparePath::Prefix));
        router.add_route(Route::get("/", ok, ComparePath::Exact));
        router.add_route(Route::get("/user-agent", user_agent, ComparePath::Exact));
        router.add_route(Route::get("/files", get_file, ComparePath::Prefix));
        router.add_route(Route::post("/files", post_file, ComparePath::Prefix));
        router
    }
}

} // verus!
