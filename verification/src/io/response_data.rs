//! The response under construction: status code, headers, cookies and an
//! optional body value not yet serialized to bytes.

use vstd::prelude::*;

use crate::io::cookies::{spec_cookies_wf, Cookies, SpecCookies};
use crate::io::headers::{spec_headers_wf, Headers, SpecHeaders};
use crate::parser::value::{JsonValue, SpecJson};

verus! {

/// The mathematical content of a response.
pub struct SpecResponseData {
    pub status: u16,
    pub headers: SpecHeaders,
    pub cookies: SpecCookies,
    pub body: Option<SpecJson>,
}

/// A response being assembled: its status code, headers, cookies, and the
/// structured body value to serialize at the end.
pub struct ResponseData {
    pub status: u16,
    pub headers: Headers,
    pub cookies: Cookies,
    pub body: Option<JsonValue>,
}

impl View for ResponseData {
    type V = SpecResponseData;

    open spec fn view(&self) -> SpecResponseData {
        SpecResponseData {
            status: self.status,
            headers: self.headers@,
            cookies: self.cookies@,
            body: match &self.body {
                Some(b) => Some(b@),
                None => None,
            },
        }
    }
}

/// Well-formedness of a response: its header and cookie stores are
/// well-formed.
pub open spec fn spec_response_wf(r: SpecResponseData) -> bool {
    spec_headers_wf(r.headers) && spec_cookies_wf(r.cookies)
}

impl ResponseData {
    /// Builds a response from its parts.
    pub fn new(status: u16, headers: Headers, cookies: Cookies, body: Option<JsonValue>) -> (r:
        Self)
        ensures
            r@.status == status,
            r@.headers == headers@,
            r@.cookies == cookies@,
            r@.body == match body {
                Some(b) => Some(b@),
                None => None::<SpecJson>,
            },
    {
        Self { status, headers, cookies, body }
    }

    /// The response every request starts from: status 200 and nothing else.
    pub fn default() -> (r: Self)
        ensures
            r@.status == 200,
            r@.headers.entries =~= Seq::<
                (Seq<char>, Seq<crate::io::header_data::SpecHeaderData>),
            >::empty(),
            r@.headers.accept =~= Seq::<crate::io::mime::SpecMime>::empty(),
            r@.cookies =~= Seq::<(Seq<char>, Seq<Seq<char>>)>::empty(),
            r@.body is None,
            spec_response_wf(r@),
    {
        Self { status: 200, headers: Headers::new(), cookies: Cookies::new(), body: None }
    }

    /// A copy of the response's headers.
    pub fn get_headers(&self) -> (r: Headers)
        ensures
            r@ == self@.headers,
    {
        self.headers.duplicate()
    }

    /// A copy of the response's cookies.
    pub fn get_cookies(&self) -> (r: Cookies)
        ensures
            r@ == self@.cookies,
    {
        self.cookies.duplicate()
    }
}

} // verus!
