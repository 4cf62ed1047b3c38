//! The unit of work for one request: its request data, the response being
//! assembled, and the opaque context slot middlewares and handlers share.

use vstd::prelude::*;

use crate::io::request_data::{spec_request_wf, RequestData, SpecRequestData};
use crate::io::response_data::{spec_response_wf, ResponseData, SpecResponseData};
use crate::parser::value::{JsonValue, SpecJson};

verus! {

/// The mathematical content of the context slot.
pub enum SpecContextValue {
    Text(Seq<char>),
    Int(i64),
    Flag(bool),
    Data(SpecJson),
}

/// The value a middleware may leave in the context slot for later
/// middlewares and the handler: a closed set of shapes, with a structured
/// value as the open-ended fallback.
pub enum ContextValue {
    Text(String),
    Int(i64),
    Flag(bool),
    Data(JsonValue),
}

impl View for ContextValue {
    type V = SpecContextValue;

    open spec fn view(&self) -> SpecContextValue {
        match self {
            ContextValue::Text(s) => SpecContextValue::Text(s@),
            ContextValue::Int(n) => SpecContextValue::Int(*n),
            ContextValue::Flag(b) => SpecContextValue::Flag(*b),
            ContextValue::Data(v) => SpecContextValue::Data(v@),
        }
    }
}

/// The mathematical content of one request's unit of work.
pub struct SpecIO {
    pub request: SpecRequestData,
    pub response: SpecResponseData,
    pub context: Option<SpecContextValue>,
}

/// The mutable bundle one request is processed through: created after
/// ingestion, handed from middleware to middleware by ownership, and
/// serialized at the end. Nothing of it is shared across requests.
pub struct IO {
    pub request: RequestData,
    pub response: ResponseData,
    pub context: Option<ContextValue>,
}

impl View for IO {
    type V = SpecIO;

    open spec fn view(&self) -> SpecIO {
        SpecIO {
            request: self.request@,
            response: self.response@,
            context: match &self.context {
                Some(c) => Some(c@),
                None => None,
            },
        }
    }
}

/// Well-formedness of a unit of work: both sides' stores are well-formed.
pub open spec fn spec_io_wf(io: SpecIO) -> bool {
    spec_request_wf(io.request) && spec_response_wf(io.response)
}

impl IO {
    /// Builds a unit of work from its parts.
    pub fn new(request: RequestData, response: ResponseData, context: Option<ContextValue>) -> (r:
        Self)
        ensures
            r@.request == request@,
            r@.response == response@,
            r@.context == match context {
                Some(c) => Some(c@),
                None => None::<SpecContextValue>,
            },
    {
        Self { request, response, context }
    }

    /// A unit of work carrying only a response: what a request-independent
    /// error is answered with.
    pub fn with_response(response: ResponseData) -> (r: Self)
        ensures
            r@.response == response@,
            r@.context is None,
            r@.request.method == "get"@,
            r@.request.uri.path == "/"@,
            r@.request.headers.entries =~= Seq::<
                (Seq<char>, Seq<crate::io::header_data::SpecHeaderData>),
            >::empty(),
            r@.request.headers.accept =~= Seq::<crate::io::mime::SpecMime>::empty(),
            r@.request.body.value is None,
            r@.request.body.files =~= Seq::<crate::body::body::SpecFileData>::empty(),
            r@.request.cookies =~= Seq::<(Seq<char>, Seq<Seq<char>>)>::empty(),
            spec_request_wf(r@.request),
    {
        Self { request: RequestData::default(), response, context: None }
    }

    /// Leaves a value in the context slot, replacing whatever was there.
    pub fn set_context(&mut self, ctx: ContextValue)
        ensures
            final(self)@.request == old(self)@.request,
            final(self)@.response == old(self)@.response,
            final(self)@.context == Some(ctx@),
    {
        self.context = Some(ctx);
    }

    /// The context value, if one was set.
    pub fn get_context(&self) -> (r: Option<&ContextValue>)
        ensures
            match r {
                Some(c) => self@.context == Some(c@),
                None => self@.context is None,
            },
    {
        match &self.context {
            Some(c) => Some(c),
            None => None,
        }
    }

    /// Removes and returns the context value.
    pub fn take_context(&mut self) -> (r: Option<ContextValue>)
        ensures
            final(self)@.request == old(self)@.request,
            final(self)@.response == old(self)@.response,
            final(self)@.context is None,
            match r {
                Some(c) => old(self)@.context == Some(c@),
                None => old(self)@.context is None,
            },
    {
        let mut ctx: Option<ContextValue> = None;
        core::mem::swap(&mut self.context, &mut ctx);
        ctx
    }
}

} // verus!
