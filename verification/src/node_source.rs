//! The routing decision of a content source that renders pages in a
//! helper process: given a request's path, the path-pattern captures, and
//! the request data so far, decide whether to render, to ask the caller
//! for more request data, or to answer not-found. Pattern matching itself
//! (a regular expression over the path) is the embedder's part; this core
//! receives its captures.

use vstd::prelude::*;
use vstd::string::StrSliceExecFns;
use vstd::string::StringExecFns;

verus! {

/// `n` occurs in `h` as a contiguous run of characters.
pub open spec fn spec_str_contains(h: Seq<char>, n: Seq<char>) -> bool {
    exists|p: int| 0 <= p <= h.len() - n.len() && #[trigger] h.subrange(p, p + n.len()) == n
}

/// `n` occurs in `h` starting at position `p`.
pub open spec fn spec_match_at(h: Seq<char>, n: Seq<char>, p: int) -> bool {
    forall|q: int| 0 <= q < n.len() ==> h[p + q] == n[q]
}

fn match_at(h: &str, n: &str, p: usize, hl: usize, nl: usize) -> (r: bool)
    requires
        hl == h@.len(),
        nl == n@.len(),
        p + nl <= hl,
    ensures
        r == spec_match_at(h@, n@, p as int),
{
    let mut q: usize = 0;
    while q < nl
        invariant
            hl == h@.len(),
            nl == n@.len(),
            p + nl <= hl,
            q <= nl,
            forall|x: int| 0 <= x < q ==> h@[p + x] == n@[x],
        decreases nl - q,
    {
        if h.get_char(p + q) != n.get_char(q) {
            return false;
        }
        q = q + 1;
    }
    true
}

/// Substring search over characters.
pub fn str_contains(h: &str, n: &str) -> (r: bool)
    ensures
        r == spec_str_contains(h@, n@),
{
    let hl = h.unicode_len();
    let nl = n.unicode_len();
    if nl > hl {
        proof {
            assert(h@.len() - n@.len() < 0);
        }
        return false;
    }
    let mut p: usize = 0;
    while p <= hl - nl
        invariant
            hl == h@.len(),
            nl == n@.len(),
            nl <= hl,
            p <= hl - nl + 1,
            forall|x: int| 0 <= x < p ==> !spec_match_at(h@, n@, x),
        decreases hl - nl - p + 1,
    {
        if match_at(h, n, p, hl, nl) {
            proof {
                assert(h@.subrange(p as int, p as int + n@.len()) =~= n@);
            }
            return true;
        }
        p = p + 1;
    }
    proof {
        assert forall|x: int| 0 <= x <= h@.len() - n@.len() implies #[trigger] h@.subrange(
            x,
            x + n@.len(),
        ) != n@ by {
            assert(!spec_match_at(h@, n@, x));
            let q = choose|q: int| 0 <= q < n@.len() && h@[x + q] != n@[q];
            assert(h@.subrange(x, x + n@.len())[q] == h@[x + q]);
        }
    }
    false
}

/// The value stored under the first header of the given name.
pub open spec fn spec_header_lookup(hs: Seq<(String, String)>, k: Seq<char>) -> Option<Seq<char>>
    decreases hs.len(),
{
    if hs.len() == 0 {
        None
    } else if hs[0].0@ == k {
        Some(hs[0].1@)
    } else {
        spec_header_lookup(hs.drop_first(), k)
    }
}

/// Looks a header up by name; the first match wins.
pub fn header_lookup<'a>(hs: &'a Vec<(String, String)>, k: &String) -> (r: Option<&'a String>)
    ensures
        match r {
            Some(v) => spec_header_lookup(hs@, k@) == Some(v@),
            None => spec_header_lookup(hs@, k@) is None,
        },
{
    proof {
        assert(hs@.subrange(0, hs@.len() as int) =~= hs@);
    }
    let n = hs.len();
    let mut i: usize = 0;
    while i < n
        invariant
            n == hs@.len(),
            i <= n,
            spec_header_lookup(hs@, k@) == spec_header_lookup(
                hs@.subrange(i as int, n as int),
                k@,
            ),
        decreases n - i,
    {
        proof {
            let tail = hs@.subrange(i as int, n as int);
            assert(tail[0] == hs@[i as int]);
            assert(tail.drop_first() =~= hs@.subrange(i as int + 1, n as int));
        }
        if hs[i].0 == *k {
            return Some(&hs[i].1);
        }
        i = i + 1;
    }
    proof {
        assert(hs@.subrange(n as int, n as int).len() == 0);
    }
    None
}

/// The request asks for a rendered page: its accept header mentions html,
/// or the react-server-components marker header is present.
pub open spec fn spec_accepts_render(hs: Seq<(String, String)>) -> bool {
    ||| match spec_header_lookup(hs, "accept"@) {
        Some(v) => spec_str_contains(v, "html"@),
        None => false,
    }
    ||| spec_header_lookup(hs, "__rsc__"@) is Some
}

pub fn accepts_render(hs: &Vec<(String, String)>) -> (r: bool)
    ensures
        r == spec_accepts_render(hs@),
{
    let accept_key = String::from_str("accept");
    let rsc_key = String::from_str("__rsc__");
    let by_accept = match header_lookup(hs, &accept_key) {
        Some(v) => str_contains(v.as_str(), "html"),
        None => false,
    };
    by_accept || match header_lookup(hs, &rsc_key) {
        Some(_) => true,
        None => false,
    }
}

/// Everything a render needs from the request.
#[derive(PartialEq, Eq, Debug)]
pub struct RenderData {
    pub params: Vec<(String, String)>,
    pub method: String,
    pub url: String,
    pub query: String,
    pub headers: Vec<(String, String)>,
    pub path: String,
}

/// Which share of a request datum the source wants to see.
#[derive(PartialEq, Eq, Debug)]
pub enum DataFilter {
    All,
    Subset(Vec<String>),
}

/// Which request data the source needs before it can answer.
#[derive(PartialEq, Eq, Debug)]
pub struct ContentSourceDataVary {
    pub method: bool,
    pub url: bool,
    pub query: Option<DataFilter>,
    pub headers: Option<DataFilter>,
}

/// The request data supplied so far.
#[derive(PartialEq, Eq, Debug)]
pub struct ContentSourceData {
    pub method: Option<String>,
    pub url: Option<String>,
    pub query: Option<String>,
    pub headers: Option<Vec<(String, String)>>,
}

/// The answer of the content source.
#[derive(PartialEq, Eq, Debug)]
pub enum ContentSourceResult {
    /// Render with the assembled data.
    Static(RenderData),
    /// More request data is needed; ask again with at least this much.
    NeedData { path: String, vary: ContentSourceDataVary },
    /// The source does not serve this path.
    NotFound,
}

/// Routes one request. `params` carries the path-pattern captures, or
/// `None` when the pattern did not match. Paths that start with an
/// underscore never match. Without headers the source first asks for the
/// two headers it routes by; with rendering accepted it asks for the full
/// method, url, query and headers before it renders.
pub fn route_request(
    path: String,
    params: Option<Vec<(String, String)>>,
    data: ContentSourceData,
) -> (r: ContentSourceResult)
    ensures
        path@.len() > 0 && path@[0] == '_' ==> r is NotFound,
        !(path@.len() > 0 && path@[0] == '_') && params is None ==> r is NotFound,
        !(path@.len() > 0 && path@[0] == '_') && params is Some ==> match data.headers {
            None => {
                &&& r is NeedData
                &&& r->NeedData_path == path
                &&& !r->NeedData_vary.method
                &&& !r->NeedData_vary.url
                &&& r->NeedData_vary.query is None
                &&& match r->NeedData_vary.headers {
                    Some(DataFilter::Subset(ks)) => ks@.len() == 2 && ks@[0]@ == "accept"@
                        && ks@[1]@ == "__rsc__"@,
                    _ => false,
                }
            },
            Some(hs) => {
                if !spec_accepts_render(hs@) {
                    r is NotFound
                } else if data.method is Some && data.url is Some && data.query is Some {
                    &&& r is Static
                    &&& r->Static_0.params == params->0
                    &&& r->Static_0.method == data.method->0
                    &&& r->Static_0.url == data.url->0
                    &&& r->Static_0.query == data.query->0
                    &&& r->Static_0.headers == hs
                    &&& r->Static_0.path@ == seq!['/'] + path@
                } else {
                    &&& r is NeedData
                    &&& r->NeedData_path == path
                    &&& r->NeedData_vary.method
                    &&& r->NeedData_vary.url
                    &&& r->NeedData_vary.query == Some(DataFilter::All)
                    &&& r->NeedData_vary.headers == Some(DataFilter::All)
                }
            },
        },
{
    let len = path.as_str().unicode_len();
    if len > 0 && path.as_str().get_char(0) == '_' {
        return ContentSourceResult::NotFound;
    }
    let params_inner = match params {
        Some(p) => p,
        None => {
            return ContentSourceResult::NotFound;
        },
    };
    let headers = match data.headers {
        Some(hs) => hs,
        None => {
            let mut keys: Vec<String> = Vec::new();
            keys.push(String::from_str("accept"));
            keys.push(String::from_str("__rsc__"));
            return ContentSourceResult::NeedData {
                path,
                vary: ContentSourceDataVary {
                    method: false,
                    url: false,
                    query: None,
                    headers: Some(DataFilter::Subset(keys)),
                },
            };
        },
    };
    if !accepts_render(&headers) {
        return ContentSourceResult::NotFound;
    }
    let full = ContentSourceDataVary {
        method: true,
        url: true,
        query: Some(DataFilter::All),
        headers: Some(DataFilter::All),
    };
    let method = match data.method {
        Some(m) => m,
        None => {
            return ContentSourceResult::NeedData { path, vary: full };
        },
    };
    let url = match data.url {
        Some(u) => u,
        None => {
            return ContentSourceResult::NeedData { path, vary: full };
        },
    };
    let query = match data.query {
        Some(q) => q,
        None => {
            return ContentSourceResult::NeedData { path, vary: full };
        },
    };
    proof {
        reveal_strlit("/");
    }
    let prefixed = String::from_str("/").concat(path.as_str());
    proof {
        assert(prefixed@ =~= seq!['/'] + path@);
    }
    ContentSourceResult::Static(
        RenderData { params: params_inner, method, url, query, headers, path: prefixed },
    )
}

/// The introspection type label of this source.
pub fn introspectable_type() -> (r: String)
    ensures
        r@ == "node render content source"@,
{
    String::from_str("node render content source")
}

} // verus!
