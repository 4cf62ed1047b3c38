//! The request pipeline as a state machine: pre-middleware steps, routing
//! and the handler, post-middleware steps, then response assembly. The host
//! performs each step's outside work (invoking the middleware or handler)
//! and advances the state with the outcome; every decision is made here.

use vstd::prelude::*;

use crate::io::cookies::Cookies;
use crate::io::headers::Headers;
use crate::io::io::IO;
use crate::io::response_data::ResponseData;
use crate::parser::value::{JsonValue, SpecJson};
use crate::services::error::Error;
use crate::services::middleware::{
    middleware_applicable, mw_views, spec_applicable, Middleware, SpecMiddleware,
};

verus! {

/// Where the pipeline stands: about to run the pre middleware at an index,
/// about to route and run the handler, about to run the post middleware at
/// an index, or done deciding and ready to assemble the response.
#[derive(Clone, Copy, PartialEq, Eq, Structural, Debug)]
pub enum PipelineState {
    RunPre(usize),
    RunEndpoint,
    RunPost(usize),
    Respond,
}

/// Index of the first applicable middleware at or after `from`.
pub open spec fn spec_first_applicable(
    t: Seq<SpecMiddleware>,
    from: int,
    method: Seq<char>,
    path: Seq<char>,
) -> Option<int>
    decreases t.len() - from,
{
    if from < 0 || from >= t.len() {
        None
    } else if spec_applicable(t[from], method, path) {
        Some(from)
    } else {
        spec_first_applicable(t, from + 1, method, path)
    }
}

/// Index of the first applicable middleware at or after `from`.
pub fn next_applicable(table: &Vec<Middleware>, from: usize, method: &str, path: &str) -> (r:
    Option<usize>)
    ensures
        spec_first_applicable(mw_views(table@), from as int, method@, path@) == match r {
            Some(i) => Some(i as int),
            None => None::<int>,
        },
        r matches Some(i) ==> from <= i < table@.len(),
{
    let ghost t = mw_views(table@);
    let n = table.len();
    let mut i: usize = from;
    if i > n {
        return None;
    }
    while i < n
        invariant
            n == table@.len(),
            t == mw_views(table@),
            from <= i <= n,
            spec_first_applicable(t, from as int, method@, path@) == spec_first_applicable(
                t,
                i as int,
                method@,
                path@,
            ),
        decreases n - i,
    {
        proof {
            assert(t[i as int] == table@[i as int]@);
        }
        if middleware_applicable(&table[i], method, path) {
            return Some(i);
        }
        i = i + 1;
    }
    None
}

/// Where the pipeline starts: at the first applicable pre middleware, or
/// straight at routing when none applies.
pub open spec fn spec_pipeline_start(
    pre: Seq<SpecMiddleware>,
    method: Seq<char>,
    path: Seq<char>,
) -> PipelineState {
    match spec_first_applicable(pre, 0, method, path) {
        Some(i) => PipelineState::RunPre(i as usize),
        None => PipelineState::RunEndpoint,
    }
}

/// Where the pipeline starts.
pub fn pipeline_start(pre: &Vec<Middleware>, method: &str, path: &str) -> (r: PipelineState)
    ensures
        r == spec_pipeline_start(mw_views(pre@), method@, path@),
        r matches PipelineState::RunPre(i) ==> i < pre@.len(),
{
    match next_applicable(pre, 0, method, path) {
        Some(i) => PipelineState::RunPre(i),
        None => PipelineState::RunEndpoint,
    }
}

/// What follows a pre middleware's outcome: cancellation stops everything
/// but response assembly — routing, the handler and the post phase never
/// run; otherwise the next applicable pre middleware, or routing.
pub open spec fn spec_advance_pre(
    pre: Seq<SpecMiddleware>,
    i: int,
    cancelled: bool,
    method: Seq<char>,
    path: Seq<char>,
) -> PipelineState {
    if cancelled {
        PipelineState::Respond
    } else {
        match spec_first_applicable(pre, i + 1, method, path) {
            Some(j) => PipelineState::RunPre(j as usize),
            None => PipelineState::RunEndpoint,
        }
    }
}

/// Advances the pipeline after the pre middleware at `i` ran.
pub fn advance_pre(
    pre: &Vec<Middleware>,
    i: usize,
    cancelled: bool,
    method: &str,
    path: &str,
) -> (r: PipelineState)
    requires
        i < pre@.len(),
    ensures
        r == spec_advance_pre(mw_views(pre@), i as int, cancelled, method@, path@),
        r matches PipelineState::RunPre(j) ==> j < pre@.len(),
{
    let n = pre.len();
    proof {
        assert(i < n);
    }
    if cancelled {
        return PipelineState::Respond;
    }
    match next_applicable(pre, i + 1, method, path) {
        Some(j) => PipelineState::RunPre(j),
        None => PipelineState::RunEndpoint,
    }
}

/// What follows the handler (or its error conversion): the first applicable
/// post middleware, or response assembly.
pub open spec fn spec_after_endpoint(
    post: Seq<SpecMiddleware>,
    method: Seq<char>,
    path: Seq<char>,
) -> PipelineState {
    match spec_first_applicable(post, 0, method, path) {
        Some(j) => PipelineState::RunPost(j as usize),
        None => PipelineState::Respond,
    }
}

/// Advances the pipeline after the handler ran or its error was converted.
pub fn after_endpoint(post: &Vec<Middleware>, method: &str, path: &str) -> (r: PipelineState)
    ensures
        r == spec_after_endpoint(mw_views(post@), method@, path@),
        r matches PipelineState::RunPost(j) ==> j < post@.len(),
{
    match next_applicable(post, 0, method, path) {
        Some(j) => PipelineState::RunPost(j),
        None => PipelineState::Respond,
    }
}

/// What follows a post middleware's outcome: cancellation stops the
/// remaining post middlewares; otherwise the next applicable one, or
/// response assembly.
pub open spec fn spec_advance_post(
    post: Seq<SpecMiddleware>,
    i: int,
    cancelled: bool,
    method: Seq<char>,
    path: Seq<char>,
) -> PipelineState {
    if cancelled {
        PipelineState::Respond
    } else {
        match spec_first_applicable(post, i + 1, method, path) {
            Some(j) => PipelineState::RunPost(j as usize),
            None => PipelineState::Respond,
        }
    }
}

/// Advances the pipeline after the post middleware at `i` ran.
pub fn advance_post(
    post: &Vec<Middleware>,
    i: usize,
    cancelled: bool,
    method: &str,
    path: &str,
) -> (r: PipelineState)
    requires
        i < post@.len(),
    ensures
        r == spec_advance_post(mw_views(post@), i as int, cancelled, method@, path@),
        r matches PipelineState::RunPost(j) ==> j < post@.len(),
{
    let n = post.len();
    proof {
        assert(i < n);
    }
    if cancelled {
        return PipelineState::Respond;
    }
    match next_applicable(post, i + 1, method, path) {
        Some(j) => PipelineState::RunPost(j),
        None => PipelineState::Respond,
    }
}

/// Cancellation in the PRE phase prevents the router and the handler from
/// ever running: whatever the tables, the request and the position, a pre
/// middleware that cancels sends the pipeline straight to response
/// assembly, which is none of the routing, handler or post-middleware
/// states.
pub proof fn lemma_pre_cancel_skips_endpoint(
    pre: Seq<SpecMiddleware>,
    i: int,
    method: Seq<char>,
    path: Seq<char>,
)
    ensures
        spec_advance_pre(pre, i, true, method, path) == PipelineState::Respond,
        spec_advance_pre(pre, i, true, method, path) != PipelineState::RunEndpoint,
        forall|j: usize| spec_advance_pre(pre, i, true, method, path) != PipelineState::RunPost(j),
        forall|j: usize| spec_advance_pre(pre, i, true, method, path) != PipelineState::RunPre(j),
{
}

/// Middleware steps walk the table strictly forward: the next pre state
/// always stands at a later index, so each applicable middleware runs at
/// most once and in ascending table order.
pub proof fn lemma_pre_steps_ascend(
    pre: Seq<SpecMiddleware>,
    i: int,
    method: Seq<char>,
    path: Seq<char>,
)
    requires
        pre.len() <= usize::MAX,
    ensures
        spec_advance_pre(pre, i, false, method, path) matches PipelineState::RunPre(j) ==> i < j,
{
    lemma_first_applicable_in_range(pre, i + 1, method, path);
}

proof fn lemma_first_applicable_in_range(
    t: Seq<SpecMiddleware>,
    from: int,
    method: Seq<char>,
    path: Seq<char>,
)
    ensures
        spec_first_applicable(t, from, method, path) matches Some(j) ==> from <= j < t.len()
            && spec_applicable(t[j], method, path),
    decreases t.len() - from,
{
    if 0 <= from < t.len() && !spec_applicable(t[from], method, path) {
        lemma_first_applicable_in_range(t, from + 1, method, path);
    }
}

/// The error answer of a failed handler or a failed route: a fresh unit of
/// work whose status comes from the error kind and whose body says only
/// that the server failed; the post phase still runs on it.
pub fn error_io(e: &Error) -> (r: IO)
    ensures
        r@.response.status == e.spec_status_code(),
        r@.response.body == Some(SpecJson::Str("Server Error"@)),
        r@.context is None,
        crate::io::io::spec_io_wf(r@),
{
    let status = e.get_status_code();
    let body = JsonValue::Str(String::from_str("Server Error"));
    let response = ResponseData::new(status, Headers::new(), Cookies::new(), Some(body));
    IO::with_response(response)
}

} // verus!
