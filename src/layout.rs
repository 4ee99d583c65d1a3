use vstd::prelude::*;
use crate::command::str_eq;

verus! {

/// A navigation entry: the label shown and the address it leads to.
pub struct Link {
    pub name: &'static str,
    pub url: &'static str,
}

impl Link {
    pub fn new(name: &'static str, url: &'static str) -> (r: Link)
        ensures
            r.name == name,
            r.url == url,
    {
        Link { name, url }
    }
}

/// Whether `s` begins with `p`.
pub fn has_prefix(s: &str, p: &str) -> (r: bool)
    ensures
        r == p@.is_prefix_of(s@),
{
    let n = p.unicode_len();
    if n > s.unicode_len() {
        return false;
    }
    let mut i: usize = 0;
    while i < n
        invariant
            n == p@.len(),
            n <= s@.len(),
            i <= n,
            forall|j: int| 0 <= j < i ==> p@[j] == s@[j],
        decreases n - i,
    {
        if p.get_char(i) != s.get_char(i) {
            return false;
        }
        i = i + 1;
    }
    true
}

/// Whether a response is a full page: it is wrapped in the site layout unless the request
/// came from htmx (`HX-Request: true`) or asked for a static file or the API.
pub open spec fn is_full_page(hx_request: Option<Seq<char>>, uri: Seq<char>) -> bool {
    &&& hx_request != Some("true"@)
    &&& uri != "/favicon.ico"@
    &&& !"/static"@.is_prefix_of(uri)
    &&& !"/api"@.is_prefix_of(uri)
}

/// Decides whether the response to a request is wrapped in the site layout; `hx_request`
/// is the value of the request's `HX-Request` header, when it has a textual one.
pub fn wraps_in_layout(hx_request: Option<&str>, uri: &str) -> (r: bool)
    ensures
        r == is_full_page(
            match hx_request {
                Some(h) => Some(h@),
                None => None,
            },
            uri@,
        ),
{
    let is_htmx = match hx_request {
        Some(h) => str_eq(h, "true"),
        None => false,
    };
    let is_static = str_eq(uri, "/favicon.ico") || has_prefix(uri, "/static");
    let is_api = has_prefix(uri, "/api");
    !is_htmx && !is_static && !is_api
}

} // verus!
