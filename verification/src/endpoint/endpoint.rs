//! One registered endpoint: a URL pattern and the HTTP method it serves.
//! Endpoints are collected once at startup into a table whose order is the
//! registration order; the handler itself is invoked by the host through
//! the index the router returns.

use vstd::prelude::*;

verus! {

/// The mathematical content of an endpoint.
pub struct SpecEndpoint {
    pub url: Seq<char>,
    pub method: Seq<char>,
}

/// A registered endpoint.
pub struct Endpoint {
    pub url: String,
    pub method: String,
}

impl View for Endpoint {
    type V = SpecEndpoint;

    open spec fn view(&self) -> SpecEndpoint {
        SpecEndpoint { url: self.url@, method: self.method@ }
    }
}

impl Endpoint {
    /// Builds an endpoint from its pattern and method.
    pub fn new(url: String, method: String) -> (r: Self)
        ensures
            r@ == (SpecEndpoint { url: url@, method: method@ }),
    {
        Self { url, method }
    }

    /// An exact copy.
    pub fn duplicate(&self) -> (r: Self)
        ensures
            r@ == self@,
    {
        Endpoint { url: self.url.clone(), method: self.method.clone() }
    }
}

/// The views of an endpoint table.
pub open spec fn ep_views(l: Seq<Endpoint>) -> Seq<SpecEndpoint> {
    Seq::new(l.len(), |i: int| l[i]@)
}

} // verus!
