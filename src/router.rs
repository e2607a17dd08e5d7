use vstd::prelude::*;
use vstd::string::*;
use crate::error::MioResult;
use crate::request::{Method, Request};
use crate::response::Response;
use crate::text::{find_char, first_index_of, same_text};

verus! {

/// The part of a path before its first `?`.
pub open spec fn before_query(p: Seq<char>) -> Seq<char> {
    match first_index_of(p, '?') {
        Some(i) => p.subrange(0, i),
        None => p,
    }
}

/// `s` without its trailing slashes.
pub open spec fn trim_slashes(s: Seq<char>) -> Seq<char>
    decreases s.len(),
{
    if s.len() > 0 && s.last() == '/' {
        trim_slashes(s.drop_last())
    } else {
        s
    }
}

/// The path that routes are matched against: the query dropped and, but for
/// the root `/`, trailing slashes removed.
pub open spec fn route_path(p: Seq<char>) -> Seq<char> {
    let b = before_query(p);
    if b == "/"@ {
        b
    } else {
        trim_slashes(b)
    }
}

fn trimmed_len(s: &str) -> (r: usize)
    ensures
        r <= s@.len(),
        trim_slashes(s@) == s@.subrange(0, r as int),
{
    let mut k: usize = s.unicode_len();
    assert(s@.subrange(0, k as int) == s@);
    while k > 0 && s.get_char(k - 1) == '/'
        invariant
            k <= s@.len(),
            trim_slashes(s@) == trim_slashes(s@.subrange(0, k as int)),
        decreases k,
    {
        assert(s@.subrange(0, k as int).drop_last() == s@.subrange(0, k - 1));
        k = k - 1;
    }
    k
}

/// The path that routes are matched against.
pub fn normalize_path(path: &str) -> (r: String)
    ensures
        r@ == route_path(path@),
{
    let n = path.unicode_len();
    let end: usize = match find_char(path, '?') {
        Some(i) => i,
        None => n,
    };
    let b: &str = path.substring_char(0, end);
    assert(b@ == before_query(path@)) by {
        if first_index_of(path@, '?') is None {
            assert(path@.subrange(0, n as int) == path@);
        }
    };
    if same_text(b, "/") {
        return b.to_string();
    }
    let k = trimmed_len(b);
    b.substring_char(0, k).to_string()
}

/// A route: a method and the path it answers.
pub struct Route {
    pub method: Method,
    pub pattern: String,
}

impl Route {
    pub fn new(method: Method, pattern: String) -> (r: Route)
        ensures
            r.method == method,
            r.pattern@ == pattern@,
    {
        Route { method, pattern }
    }

    pub fn pattern(&self) -> (r: &String)
        ensures
            r@ == self.pattern@,
    {
        &self.pattern
    }

    pub fn method(&self) -> (r: &Method)
        ensures
            *r == self.method,
    {
        &self.method
    }
}

/// The index of the first route for `m` whose pattern is `p`.
pub open spec fn first_route(routes: Seq<Route>, m: Method, p: Seq<char>) -> Option<int> {
    if exists|i: int| 0 <= i < routes.len() && routes[i].method == m && routes[i].pattern@ == p {
        Some(
            choose|i: int|
                0 <= i < routes.len() && routes[i].method == m && routes[i].pattern@ == p && forall|j: int|
                    0 <= j < i ==> !(routes[j].method == m && routes[j].pattern@ == p),
        )
    } else {
        None
    }
}

/// What the server does with a decoded buffer.
pub enum Plan {
    /// Run route `.0` on the request.
    Route(usize, Request),
    /// Send this response.
    Reply(Response),
}

/// The routes of an application, in the order they were added.
pub struct Router {
    pub routes: Vec<Route>,
}

impl Router {
    pub fn new() -> (r: Router)
        ensures
            r.routes@.len() == 0,
    {
        Router { routes: Vec::new() }
    }

    /// Adds a route and returns its index.
    pub fn add(&mut self, method: Method, pattern: String) -> (r: usize)
        ensures
            r == old(self).routes@.len(),
            final(self).routes@.len() == old(self).routes@.len() + 1,
            final(self).routes@.subrange(0, r as int) == old(self).routes@,
            final(self).routes@[r as int].method == method,
            final(self).routes@[r as int].pattern@ == pattern@,
    {
        self.routes.push(Route::new(method, pattern));
        assert(self.routes@.subrange(0, old(self).routes@.len() as int) =~= old(self).routes@);
        self.routes.len() - 1
    }

    /// The first route for method `m` whose pattern is `p`.
    fn find_pattern(&self, m: Method, p: &String) -> (r: Option<usize>)
        ensures
            match r {
                Some(i) => first_route(self.routes@, m, p@) == Some(i as int),
                None => first_route(self.routes@, m, p@) is None,
            },
    {
        let mut i: usize = 0;
        while i < self.routes.len()
            invariant
                i <= self.routes@.len(),
                forall|j: int| 0 <= j < i ==> !(self.routes@[j].method == m && self.routes@[j].pattern@ == p@),
            decreases self.routes@.len() - i,
        {
            if self.routes[i].method == m && self.routes[i].pattern == *p {
                proof {
                    assert(self.routes@[i as int].method == m && self.routes@[i as int].pattern@ == p@);
                    let w = choose|w: int|
                        0 <= w < self.routes@.len() && self.routes@[w].method == m && self.routes@[w].pattern@ == p@
                            && forall|j: int| 0 <= j < w ==> !(self.routes@[j].method == m && self.routes@[j].pattern@ == p@);
                    if w < i {
                    } else if w > i {
                    }
                    assert(w == i);
                }
                return Some(i);
            }
            i = i + 1;
        }
        None
    }

    /// The first route for method `m` that answers `path`.
    pub fn find(&self, m: Method, path: &str) -> (r: Option<usize>)
        ensures
            match r {
                Some(i) => first_route(self.routes@, m, route_path(path@)) == Some(i as int),
                None => first_route(self.routes@, m, route_path(path@)) is None,
            },
    {
        let p = normalize_path(path);
        self.find_pattern(m, &p)
    }

    /// Chooses what to do with the outcome of decoding: run the first matching
    /// route; answer 404 when none matches, 100 when the body is not all there
    /// yet, and 501 when the bytes are not a request.
    pub fn dispatch(&self, decoded: MioResult<Option<Request>>) -> (r: Plan)
        ensures
            match decoded {
                Ok(Some(q)) => match first_route(self.routes@, q.method, route_path(q.path@)) {
                    Some(i) => r matches Plan::Route(j, q2) && j == i && q2 == q,
                    None => r matches Plan::Reply(resp) && resp.status_code.0 == 404 && resp.data@
                        == "Not Found"@.map_values(|c: char| c as u8) && resp.data_length == Some(9usize)
                        && resp.headers@.len() == 0,
                },
                Ok(None) => r matches Plan::Reply(resp) && resp.status_code.0 == 100 && resp.data@.len() == 0
                    && resp.data_length is None && resp.headers@.len() == 0,
                Err(_) => r matches Plan::Reply(resp) && resp.status_code.0 == 501 && resp.data@.len() == 0
                    && resp.data_length is None && resp.headers@.len() == 0,
            },
    {
        match decoded {
            Ok(Some(q)) => match self.find(q.method, q.path.as_str()) {
                Some(i) => Plan::Route(i, q),
                None => {
                    let mut resp = Response::empty(404);
                    let body: Vec<u8> = vec![78u8, 111u8, 116u8, 32u8, 70u8, 111u8, 117u8, 110u8, 100u8];
                    proof {
                        reveal_strlit("Not Found");
                        assert(body@ =~= "Not Found"@.map_values(|c: char| c as u8));
                    }
                    resp.from_bytes(body);
                    Plan::Reply(resp)
                },
            },
            Ok(None) => Plan::Reply(Response::empty(100)),
            Err(_) => Plan::Reply(Response::empty(501)),
        }
    }
}

} // verus!
