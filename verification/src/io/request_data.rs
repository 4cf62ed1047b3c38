//! The normalized model of an incoming request: its parsed URI with the
//! decoded query map, its method, headers, cookies and body.

use vstd::prelude::*;

use crate::body::body::{BodyData, SpecBodyData};
use crate::io::cookies::{spec_cookies_wf, Cookies};
use crate::io::headers::{spec_headers_wf, Headers, SpecHeaders};
use crate::util::strutil::{trim_str, trim_seq};

verus! {

/// The mathematical content of a URI.
pub struct SpecUri {
    pub host: Option<Seq<char>>,
    pub path: Seq<char>,
    pub query: Option<Seq<char>>,
    pub query_map: Option<Seq<(Seq<char>, Seq<char>)>>,
    pub port: Option<u16>,
    pub scheme: Option<Seq<char>>,
}

/// A parsed request URI: scheme, host, port, path, the raw query string and
/// the decoded query map.
pub struct Uri {
    pub host: Option<String>,
    pub path: String,
    pub query: Option<String>,
    pub query_map: Option<Vec<(String, String)>>,
    pub port: Option<u16>,
    pub scheme: Option<String>,
}

/// The views of a list of key-value pairs.
pub open spec fn pair_views(l: Seq<(String, String)>) -> Seq<(Seq<char>, Seq<char>)> {
    Seq::new(l.len(), |i: int| (l[i].0@, l[i].1@))
}

impl View for Uri {
    type V = SpecUri;

    open spec fn view(&self) -> SpecUri {
        SpecUri {
            host: match &self.host {
                Some(h) => Some(h@),
                None => None,
            },
            path: self.path@,
            query: match &self.query {
                Some(q) => Some(q@),
                None => None,
            },
            query_map: match &self.query_map {
                Some(m) => Some(pair_views(m@)),
                None => None,
            },
            port: self.port,
            scheme: match &self.scheme {
                Some(s) => Some(s@),
                None => None,
            },
        }
    }
}

/// Whether a query string decodes to a flat string map; duplicate keys keep
/// the last value, by definition of the query-string decoder.
pub uninterp spec fn query_decodes(s: Seq<char>) -> bool;

/// The flat string map a query string decodes to.
pub uninterp spec fn query_map_of(s: Seq<char>) -> Map<Seq<char>, Seq<char>>;

/// A pair list carries exactly a map: distinct keys, every pair in the map,
/// every key of the map present.
pub open spec fn pairs_carry_map(
    ps: Seq<(Seq<char>, Seq<char>)>,
    m: Map<Seq<char>, Seq<char>>,
) -> bool {
    &&& forall|i: int, j: int| 0 <= i < j < ps.len() ==> ps[i].0 != ps[j].0
    &&& forall|i: int| 0 <= i < ps.len() ==> m.contains_pair((#[trigger] ps[i]).0, ps[i].1)
    &&& forall|k: Seq<char>| m.dom().contains(k) ==> exists|i: int|
        0 <= i < ps.len() && (#[trigger] ps[i]).0 == k
}

/// Relies on `serde_qs::from_str` deserializing into a flat string map:
/// whether the string decodes, and the resulting key-value map, depend on
/// the string alone; only the order the pairs are handed out in does not.
#[verifier::external_body]
fn decode_query(s: &str) -> (r: Option<Vec<(String, String)>>)
    ensures
        (r is Some) == query_decodes(s@),
        r matches Some(v) ==> pairs_carry_map(pair_views(v@), query_map_of(s@)),
{
    match serde_qs::from_str::<std::collections::HashMap<String, String>>(s) {
        Ok(m) => Some(m.into_iter().collect()),
        Err(_) => None,
    }
}

/// What the stored query map is, given the trimmed-to-absent query: absent
/// without a query, when the query does not decode, or when it decodes to
/// the empty map.
pub open spec fn spec_query_map_shape(
    query: Option<Seq<char>>,
    query_map: Option<Seq<(Seq<char>, Seq<char>)>>,
) -> bool {
    match query {
        None => query_map is None,
        Some(q) => match query_map {
            Some(ps) => query_decodes(q) && pairs_carry_map(ps, query_map_of(q)) && ps.len() > 0,
            None => !query_decodes(q) || query_map_of(q) =~= Map::<Seq<char>, Seq<char>>::empty(),
        },
    }
}

impl Uri {
    /// Builds a URI from its parts: a blank query string counts as absent,
    /// and the query map is decoded from the query string, kept only when
    /// it decodes to a non-empty map.
    pub fn new(
        host: Option<String>,
        path: String,
        query: Option<String>,
        port: Option<u16>,
        scheme: Option<String>,
    ) -> (r: Self)
        ensures
            r@.host == match host {
                Some(h) => Some(h@),
                None => None::<Seq<char>>,
            },
            r@.path == path@,
            r@.port == port,
            r@.scheme == match scheme {
                Some(s) => Some(s@),
                None => None::<Seq<char>>,
            },
            r@.query == match query {
                Some(q) => if trim_seq(q@).len() == 0 {
                    None::<Seq<char>>
                } else {
                    Some(q@)
                },
                None => None::<Seq<char>>,
            },
            spec_query_map_shape(r@.query, r@.query_map),
    {
        let query = match query {
            Some(v) => {
                let t = trim_str(v.as_str());
                if t.unicode_len() == 0 {
                    None
                } else {
                    Some(v)
                }
            },
            None => None,
        };
        let query_map = match &query {
            Some(s) => {
                match decode_query(s.as_str()) {
                    Some(v) => {
                        if v.len() > 0 {
                            Some(v)
                        } else {
                            proof {
                                assert(pair_views(v@).len() == 0);
                                assert(query_map_of(s@).dom() =~= Set::<Seq<char>>::empty())
                                    by {
                                    assert forall|k: Seq<char>| !query_map_of(
                                        s@,
                                    ).dom().contains(k) by {
                                        if query_map_of(s@).dom().contains(k) {
                                            let ps = pair_views(v@);
                                            let i = choose|i: int|
                                                0 <= i < ps.len() && ps[i].0 == k;
                                            assert(false);
                                        }
                                    }
                                }
                                assert(query_map_of(s@) =~= Map::<Seq<char>, Seq<char>>::empty());
                            }
                            None
                        }
                    },
                    None => None,
                }
            },
            None => None,
        };
        Self { host, path, query, query_map, port, scheme }
    }

    /// An exact copy.
    pub fn duplicate(&self) -> (r: Self)
        ensures
            r@ == self@,
    {
        let query_map = match &self.query_map {
            Some(m) => {
                let n = m.len();
                let mut out: Vec<(String, String)> = Vec::new();
                let mut i: usize = 0;
                while i < n
                    invariant
                        n == m@.len(),
                        i <= n,
                        pair_views(out@) == pair_views(m@).take(i as int),
                    decreases n - i,
                {
                    let ghost pre = out@;
                    out.push((m[i].0.clone(), m[i].1.clone()));
                    i = i + 1;
                    proof {
                        assert(pair_views(out@) =~= pair_views(pre).push(
                            (out@.last().0@, out@.last().1@),
                        ));
                        assert(pair_views(out@) =~= pair_views(m@).take(i as int));
                    }
                }
                proof {
                    assert(pair_views(out@) =~= pair_views(m@));
                }
                Some(out)
            },
            None => None,
        };
        Uri {
            host: match &self.host {
                Some(h) => Some(h.clone()),
                None => None,
            },
            path: self.path.clone(),
            query: match &self.query {
                Some(q) => Some(q.clone()),
                None => None,
            },
            query_map,
            port: self.port,
            scheme: match &self.scheme {
                Some(s) => Some(s.clone()),
                None => None,
            },
        }
    }
}

impl Default for Uri {
    /// The root path and nothing else.
    fn default() -> (r: Self)
        ensures
            r@.host is None,
            r@.path == "/"@,
            r@.query is None,
            r@.query_map is None,
            r@.port is None,
            r@.scheme is None,
    {
        Self {
            host: None,
            path: String::from_str("/"),
            query: None,
            query_map: None,
            port: None,
            scheme: None,
        }
    }
}

/// The mathematical content of a request.
pub struct SpecRequestData {
    pub uri: SpecUri,
    pub method: Seq<char>,
    pub headers: SpecHeaders,
    pub body: SpecBodyData,
    pub cookies: crate::io::cookies::SpecCookies,
}

/// An incoming request: URI, method, headers, body and cookies.
pub struct RequestData {
    pub uri: Uri,
    pub method: String,
    pub headers: Headers,
    pub body: BodyData,
    pub cookies: Cookies,
}

impl View for RequestData {
    type V = SpecRequestData;

    open spec fn view(&self) -> SpecRequestData {
        SpecRequestData {
            uri: self.uri@,
            method: self.method@,
            headers: self.headers@,
            body: self.body@,
            cookies: self.cookies@,
        }
    }
}

/// Well-formedness of a request: its header and cookie stores are
/// well-formed.
pub open spec fn spec_request_wf(r: SpecRequestData) -> bool {
    spec_headers_wf(r.headers) && spec_cookies_wf(r.cookies)
}

impl RequestData {
    /// Builds a request from its parts.
    pub fn new(uri: Uri, method: String, headers: Headers, cookies: Cookies, body: BodyData) -> (r:
        Self)
        ensures
            r@ == (SpecRequestData {
                uri: uri@,
                method: method@,
                headers: headers@,
                body: body@,
                cookies: cookies@,
            }),
    {
        Self { uri, method, headers, body, cookies }
    }

    /// A copy of the request's headers.
    pub fn get_headers(&self) -> (r: Headers)
        ensures
            r@ == self@.headers,
    {
        self.headers.duplicate()
    }

    /// A copy of the request's cookies.
    pub fn get_cookies(&self) -> (r: Cookies)
        ensures
            r@ == self@.cookies,
    {
        self.cookies.duplicate()
    }
}

impl Default for RequestData {
    /// A GET request for the root with nothing else set.
    fn default() -> (r: Self)
        ensures
            r@.uri.path == "/"@,
            r@.method == "get"@,
            r@.headers.entries =~= Seq::<(Seq<char>, Seq<crate::io::header_data::SpecHeaderData>)>::empty(),
            r@.headers.accept =~= Seq::<crate::io::mime::SpecMime>::empty(),
            r@.body.value is None,
            r@.body.files =~= Seq::<crate::body::body::SpecFileData>::empty(),
            r@.cookies =~= Seq::<(Seq<char>, Seq<Seq<char>>)>::empty(),
            spec_request_wf(r@),
    {
        Self {
            uri: Uri::default(),
            method: String::from_str("get"),
            headers: Headers::new(),
            body: BodyData { value: None, files: Vec::new() },
            cookies: Cookies::new(),
        }
    }
}

} // verus!
