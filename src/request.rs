use vstd::prelude::*;
use crate::stream_data::PeerAddr;
use crate::text::{first_index_of, find_char, same_text};
use vstd::string::*;

verus! {

/// The request methods the server knows.
#[derive(PartialEq, Eq, Structural, Clone, Copy, Debug)]
pub enum Method {
    Get,
    Post,
    Put,
    Delete,
    Head,
    Options,
    Patch,
    Connect,
    Trace,
}

/// The method written as `s` on the request line, if it is one of the known ones.
pub open spec fn method_named(s: Seq<char>) -> Option<Method> {
    if s == "GET"@ {
        Some(Method::Get)
    } else if s == "POST"@ {
        Some(Method::Post)
    } else if s == "PUT"@ {
        Some(Method::Put)
    } else if s == "DELETE"@ {
        Some(Method::Delete)
    } else if s == "HEAD"@ {
        Some(Method::Head)
    } else if s == "OPTIONS"@ {
        Some(Method::Options)
    } else if s == "PATCH"@ {
        Some(Method::Patch)
    } else if s == "CONNECT"@ {
        Some(Method::Connect)
    } else if s == "TRACE"@ {
        Some(Method::Trace)
    } else {
        None
    }
}

impl Method {
    pub fn from_name(s: &str) -> (r: Option<Method>)
        ensures
            r == method_named(s@),
    {
        if same_text(s, "GET") {
            Some(Method::Get)
        } else if same_text(s, "POST") {
            Some(Method::Post)
        } else if same_text(s, "PUT") {
            Some(Method::Put)
        } else if same_text(s, "DELETE") {
            Some(Method::Delete)
        } else if same_text(s, "HEAD") {
            Some(Method::Head)
        } else if same_text(s, "OPTIONS") {
            Some(Method::Options)
        } else if same_text(s, "PATCH") {
            Some(Method::Patch)
        } else if same_text(s, "CONNECT") {
            Some(Method::Connect)
        } else if same_text(s, "TRACE") {
            Some(Method::Trace)
        } else {
            None
        }
    }
}

/// A list of name/value pairs as text.
pub open spec fn pairs_view(v: Seq<(String, String)>) -> Seq<(Seq<char>, Seq<char>)> {
    v.map_values(|p: (String, String)| (p.0@, p.1@))
}

/// The value of the last pair named `k`: a later pair overrides an earlier one.
pub open spec fn lookup(hs: Seq<(Seq<char>, Seq<char>)>, k: Seq<char>) -> Option<Seq<char>>
    decreases hs.len(),
{
    if hs.len() == 0 {
        None
    } else if hs.last().0 == k {
        Some(hs.last().1)
    } else {
        lookup(hs.drop_last(), k)
    }
}

pub open spec fn opt_text(o: Option<String>) -> Option<Seq<char>> {
    match o {
        Some(s) => Some(s@),
        None => None,
    }
}

proof fn lemma_lookup_prefix(hs: Seq<(Seq<char>, Seq<char>)>, k: Seq<char>, i: int)
    requires
        0 <= i <= hs.len(),
        forall|j: int| i <= j < hs.len() ==> hs[j].0 != k,
    ensures
        lookup(hs, k) == lookup(hs.subrange(0, i), k),
    decreases hs.len() - i,
{
    if i < hs.len() {
        assert(hs.drop_last() == hs.subrange(0, hs.len() - 1));
        lemma_lookup_prefix(hs.drop_last(), k, i);
        assert(hs.drop_last().subrange(0, i) == hs.subrange(0, i));
    } else {
        assert(hs.subrange(0, i) == hs);
    }
}

/// The value of the last pair in `hs` named `key`.
pub fn find_last(hs: &Vec<(String, String)>, key: &str) -> (r: Option<String>)
    ensures
        opt_text(r) == lookup(pairs_view(hs@), key@),
{
    let ghost pv = pairs_view(hs@);
    let mut i: usize = hs.len();
    while i > 0
        invariant
            i <= hs@.len(),
            pv == pairs_view(hs@),
            forall|j: int| i <= j < hs@.len() ==> pv[j].0 != key@,
        decreases i,
    {
        let name: &str = hs[i - 1].0.as_str();
        if same_text(name, key) {
            proof {
                lemma_lookup_prefix(pv, key@, i as int);
                let sub = pv.subrange(0, i as int);
                assert(sub.last() == pv[i - 1]);
            }
            return Some(hs[i - 1].1.clone());
        }
        i = i - 1;
    }
    proof {
        lemma_lookup_prefix(pv, key@, 0);
    }
    None
}

/// The query part of a path: what follows its first `?`, or nothing.
pub open spec fn query_of(path: Seq<char>) -> Seq<char> {
    match first_index_of(path, '?') {
        Some(i) => path.subrange(i + 1, path.len() as int),
        None => Seq::empty(),
    }
}

/// The name/value pairs that `application/x-www-form-urlencoded` text decodes to.
pub uninterp spec fn form_pairs(q: Seq<char>) -> Seq<(Seq<char>, Seq<char>)>;

/// Relies on url::form_urlencoded::parse: the percent-decoded name/value pairs
/// of a query string, in the order they appear; none for an empty string.
#[verifier::external_body]
fn parse_query(q: &str) -> (r: Vec<(String, String)>)
    ensures
        pairs_view(r@) == form_pairs(q@),
        q@.len() == 0 ==> r@.len() == 0,
{
    url::form_urlencoded::parse(q.as_bytes()).map(|(k, v)| (k.into_owned(), v.into_owned())).collect()
}

/// One decoded request.
pub struct Request {
    pub method: Method,
    pub path: String,
    pub headers: Vec<(String, String)>,
    pub params: Vec<(String, String)>,
    pub querys: Vec<(String, String)>,
    pub remote_addr: PeerAddr,
    pub data: Vec<u8>,
}

impl Request {
    pub fn new(method: Method, path: String, headers: Vec<(String, String)>, remote_addr: PeerAddr, data: Vec<u8>) -> (r: Request)
        ensures
            r.method == method,
            r.path@ == path@,
            r.headers@ == headers@,
            r.params@.len() == 0,
            pairs_view(r.querys@) == form_pairs(query_of(path@)),
            query_of(path@).len() == 0 ==> r.querys@.len() == 0,
            r.remote_addr == remote_addr,
            r.data@ == data@,
    {
        let querys = Request::decode_query(&path);
        Request { method, path, headers, params: Vec::new(), querys, remote_addr, data }
    }

    fn decode_query(path: &String) -> (r: Vec<(String, String)>)
        ensures
            pairs_view(r@) == form_pairs(query_of(path@)),
            query_of(path@).len() == 0 ==> r@.len() == 0,
    {
        let p: &str = path.as_str();
        let n = p.unicode_len();
        match find_char(p, '?') {
            Some(pos) => {
                let q: &str = p.substring_char(pos + 1, n);
                parse_query(q)
            },
            None => {
                let q: &str = "";
                proof {
                    reveal_strlit("");
                    assert(q@ =~= Seq::<char>::empty());
                }
                parse_query(q)
            },
        }
    }

    pub fn method(&self) -> (r: &Method)
        ensures
            *r == self.method,
    {
        &self.method
    }

    pub fn path(&self) -> (r: &str)
        ensures
            r@ == self.path@,
    {
        self.path.as_str()
    }

    pub fn headers(&self) -> (r: &Vec<(String, String)>)
        ensures
            r@ == self.headers@,
    {
        &self.headers
    }

    /// The value of header `key`; names are compared exactly and the last
    /// header of that name wins.
    pub fn get_header(&self, key: &str) -> (r: Option<String>)
        ensures
            opt_text(r) == lookup(pairs_view(self.headers@), key@),
    {
        find_last(&self.headers, key)
    }

    pub fn remote_addr(&self) -> (r: &PeerAddr)
        ensures
            *r == self.remote_addr,
    {
        &self.remote_addr
    }

    pub fn data_length(&self) -> (r: usize)
        ensures
            r == self.data@.len(),
    {
        self.data.len()
    }

    pub fn data(&self) -> (r: &Vec<u8>)
        ensures
            r@ == self.data@,
    {
        &self.data
    }

    pub fn params(&self) -> (r: &Vec<(String, String)>)
        ensures
            r@ == self.params@,
    {
        &self.params
    }

    pub fn get_param(&self, key: &str) -> (r: Option<String>)
        ensures
            opt_text(r) == lookup(pairs_view(self.params@), key@),
    {
        find_last(&self.params, key)
    }

    pub fn querys(&self) -> (r: &Vec<(String, String)>)
        ensures
            r@ == self.querys@,
    {
        &self.querys
    }

    pub fn get_query(&self, key: &str) -> (r: Option<String>)
        ensures
            opt_text(r) == lookup(pairs_view(self.querys@), key@),
    {
        find_last(&self.querys, key)
    }
}

} // verus!
