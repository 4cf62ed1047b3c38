//! The middleware model: each middleware has an execution phase, an order
//! value, and optional method and URL filters. At startup the registrations
//! are split by phase and sorted by order; at request time the applicable
//! ones run in that order.

use vstd::prelude::*;

use crate::io::io::IO;
use crate::util::strutil::{lower_seq, str_eq, to_lower};
use vstd::multiset::Multiset;

verus! {

/// What one middleware step decides: go on, or stop the pipeline and answer
/// with the unit of work as it stands.
pub enum MiddlewareResponse {
    Next(IO),
    Cancel(IO),
}

/// The phase a middleware runs in: before routing, or after the handler.
#[derive(Clone, Copy, PartialEq, Eq, Structural, Debug)]
pub enum MiddlewareExecOrder {
    PRE,
    POST,
}

/// The mathematical content of a middleware registration.
pub struct SpecMiddleware {
    pub regex: Option<Seq<char>>,
    pub order: usize,
    pub method: Option<Seq<char>>,
    pub exec_order: MiddlewareExecOrder,
}

/// One middleware registration: an optional URL filter as a regex pattern,
/// the order value it executes at, an optional method filter, and its
/// phase. The function itself is invoked by the host through the index the
/// pipeline hands back.
pub struct Middleware {
    pub regex: Option<String>,
    pub order: usize,
    pub method: Option<String>,
    pub exec_order: MiddlewareExecOrder,
}

impl View for Middleware {
    type V = SpecMiddleware;

    open spec fn view(&self) -> SpecMiddleware {
        SpecMiddleware {
            regex: match &self.regex {
                Some(p) => Some(p@),
                None => None,
            },
            order: self.order,
            method: match &self.method {
                Some(m) => Some(m@),
                None => None,
            },
            exec_order: self.exec_order,
        }
    }
}

impl Middleware {
    /// Builds a middleware registration from its parts.
    pub fn new(
        regex: Option<String>,
        order: usize,
        method: Option<String>,
        exec_order: MiddlewareExecOrder,
    ) -> (r: Self)
        ensures
            r@ == (SpecMiddleware {
                regex: match regex {
                    Some(p) => Some(p@),
                    None => None::<Seq<char>>,
                },
                order,
                method: match method {
                    Some(m) => Some(m@),
                    None => None::<Seq<char>>,
                },
                exec_order,
            }),
    {
        Self { regex, order, method, exec_order }
    }

    /// An exact copy.
    pub fn duplicate(&self) -> (r: Self)
        ensures
            r@ == self@,
    {
        Middleware {
            regex: match &self.regex {
                Some(p) => Some(p.clone()),
                None => None,
            },
            order: self.order,
            method: match &self.method {
                Some(m) => Some(m.clone()),
                None => None,
            },
            exec_order: self.exec_order,
        }
    }
}

/// The views of a middleware table.
pub open spec fn mw_views(l: Seq<Middleware>) -> Seq<SpecMiddleware> {
    Seq::new(l.len(), |i: int| l[i]@)
}

/// Whether a pattern is a regex that compiles. Relied on below.
pub uninterp spec fn regex_compiles(p: Seq<char>) -> bool;

/// Whether the compiled regex for a pattern matches a text. Relied on
/// below.
pub uninterp spec fn regex_matches(p: Seq<char>, t: Seq<char>) -> bool;

/// Relies on `regex::Regex::new` and `Regex::is_match`: whether a pattern
/// compiles, and whether its regex matches a text, depend on the pattern
/// and the text alone; a pattern that does not compile matches nothing.
#[verifier::external_body]
fn regex_filter_match(pattern: &str, text: &str) -> (r: Option<bool>)
    ensures
        (r is Some) == regex_compiles(pattern@),
        r matches Some(b) ==> b == regex_matches(pattern@, text@),
{
    match regex::Regex::new(pattern) {
        Ok(re) => Some(re.is_match(text)),
        Err(_) => None,
    }
}

/// Whether a middleware applies to a request: its method filter, if set,
/// must equal the lower-cased request method, and its URL filter, if set,
/// must compile and match the request path.
pub open spec fn spec_applicable(m: SpecMiddleware, method: Seq<char>, path: Seq<char>) -> bool {
    &&& match m.method {
        Some(f) => lower_seq(method) == f,
        None => true,
    }
    &&& match m.regex {
        Some(p) => regex_compiles(p) && regex_matches(p, path),
        None => true,
    }
}

/// Whether a middleware applies to a request.
pub fn middleware_applicable(m: &Middleware, method: &str, path: &str) -> (r: bool)
    ensures
        r == spec_applicable(m@, method@, path@),
{
    match &m.method {
        Some(f) => {
            let low = to_lower(method);
            if !str_eq(low.as_str(), f.as_str()) {
                return false;
            }
        },
        None => {},
    }
    match &m.regex {
        Some(p) => {
            match regex_filter_match(p.as_str(), path) {
                Some(true) => true,
                _ => false,
            }
        },
        None => true,
    }
}

/// The registrations of one phase, in registration order.
pub open spec fn keep_phase(
    ms: Seq<SpecMiddleware>,
    phase: MiddlewareExecOrder,
) -> Seq<SpecMiddleware>
    decreases ms.len(),
{
    if ms.len() == 0 {
        Seq::empty()
    } else {
        let rest = keep_phase(ms.drop_last(), phase);
        if ms.last().exec_order == phase {
            rest.push(ms.last())
        } else {
            rest
        }
    }
}

/// Ascending by order value.
pub open spec fn sorted_by_order(s: Seq<SpecMiddleware>) -> bool {
    forall|i: int, j: int| 0 <= i < j < s.len() ==> (#[trigger] s[i]).order <= (#[trigger] s[j]).order
}

/// The two phase tables, each sorted by order value.
pub struct MiddlewareTables {
    pub pre: Vec<Middleware>,
    pub post: Vec<Middleware>,
}

/// Splits the registrations by phase and sorts each table ascending by
/// order value; ties keep no guaranteed relative order. Built once at
/// startup and read-only afterwards.
pub fn initialize_middlewares(middlewares: Vec<Middleware>) -> (r: MiddlewareTables)
    ensures
        mw_views(r.pre@).to_multiset() == keep_phase(
            mw_views(middlewares@),
            MiddlewareExecOrder::PRE,
        ).to_multiset(),
        sorted_by_order(mw_views(r.pre@)),
        mw_views(r.post@).to_multiset() == keep_phase(
            mw_views(middlewares@),
            MiddlewareExecOrder::POST,
        ).to_multiset(),
        sorted_by_order(mw_views(r.post@)),
{
    let pre = get_init_middlewares(&middlewares, MiddlewareExecOrder::PRE);
    let post = get_init_middlewares(&middlewares, MiddlewareExecOrder::POST);
    MiddlewareTables { pre, post }
}

/// Collects one phase's registrations and sorts them by order value.
fn get_init_middlewares(middlewares: &Vec<Middleware>, phase: MiddlewareExecOrder) -> (r: Vec<
    Middleware,
>)
    ensures
        mw_views(r@).to_multiset() == keep_phase(mw_views(middlewares@), phase).to_multiset(),
        sorted_by_order(mw_views(r@)),
{
    let ghost all = mw_views(middlewares@);
    let n = middlewares.len();
    let mut col: Vec<Middleware> = Vec::new();
    let mut i: usize = 0;
    proof {
        assert(all.take(0) =~= Seq::<SpecMiddleware>::empty());
        assert(mw_views(col@) =~= keep_phase(all.take(0), phase));
    }
    while i < n
        invariant
            n == middlewares@.len(),
            all == mw_views(middlewares@),
            i <= n,
            mw_views(col@) == keep_phase(all.take(i as int), phase),
        decreases n - i,
    {
        proof {
            assert(all.take(i + 1).drop_last() =~= all.take(i as int));
            assert(all.take(i + 1).last() == all[i as int]);
            assert(all[i as int] == middlewares@[i as int]@);
        }
        if middlewares[i].exec_order == phase {
            let ghost pre_col = col@;
            let m = middlewares[i].duplicate();
            col.push(m);
            proof {
                assert(mw_views(col@) =~= mw_views(pre_col).push(col@.last()@));
                assert(mw_views(col@) =~= keep_phase(all.take(i + 1), phase));
            }
        }
        i = i + 1;
    }
    proof {
        assert(all.take(n as int) =~= all);
    }
    sort_by_order(col)
}

/// Sorts a table ascending by order value, keeping exactly the same
/// registrations.
fn sort_by_order(input: Vec<Middleware>) -> (r: Vec<Middleware>)
    ensures
        mw_views(r@).to_multiset() == mw_views(input@).to_multiset(),
        sorted_by_order(mw_views(r@)),
{
    broadcast use vstd::seq_lib::group_to_multiset_ensures;

    let ghost orig = mw_views(input@);
    let mut rest = input;
    let mut out: Vec<Middleware> = Vec::new();
    proof {
        assert(mw_views(out@) =~= Seq::<SpecMiddleware>::empty());
        assert(mw_views(out@).to_multiset().add(mw_views(rest@).to_multiset()) =~= orig.to_multiset());
    }
    while rest.len() > 0
        invariant
            mw_views(out@).to_multiset().add(mw_views(rest@).to_multiset()) == orig.to_multiset(),
            sorted_by_order(mw_views(out@)),
            forall|a: int, b: int|
                0 <= a < mw_views(out@).len() && 0 <= b < mw_views(rest@).len() ==> (
                #[trigger] mw_views(out@)[a]).order <= (#[trigger] mw_views(rest@)[b]).order,
        decreases rest@.len(),
    {
        // index of the first remaining registration with the least order
        let mut k: usize = 0;
        let m = rest.len();
        let mut j: usize = 1;
        while j < m
            invariant
                m == rest@.len(),
                k < j <= m,
                forall|b: int|
                    0 <= b < j ==> (#[trigger] mw_views(rest@)[b]).order >= mw_views(
                        rest@,
                    )[k as int].order,
            decreases m - j,
        {
            if rest[j].order < rest[k].order {
                k = j;
            }
            j = j + 1;
        }
        let ghost rest_pre = mw_views(rest@);
        let ghost out_pre = mw_views(out@);
        let picked = rest.remove(k);
        proof {
            assert(mw_views(rest@) =~= rest_pre.remove(k as int));
            rest_pre.to_multiset_ensures();
        }
        let ghost picked_view = picked@;
        out.push(picked);
        proof {
            assert(mw_views(out@) =~= out_pre.push(picked_view));
            out_pre.to_multiset_ensures();
            assert(mw_views(out@).to_multiset().add(mw_views(rest@).to_multiset())
                =~= orig.to_multiset());
            assert forall|a: int, b: int|
                0 <= a < mw_views(out@).len() && 0 <= b < mw_views(rest@).len() implies (
            #[trigger] mw_views(out@)[a]).order <= (#[trigger] mw_views(rest@)[b]).order by {
                assert(mw_views(rest@)[b] == if b < k {
                    rest_pre[b]
                } else {
                    rest_pre[b + 1]
                });
                if a < out_pre.len() {
                    assert(out_pre[a].order <= rest_pre[b + (if b < k { 0int } else { 1 })].order);
                } else {
                    assert(mw_views(out@)[a] == picked_view);
                    assert(picked_view == rest_pre[k as int]);
                }
            }
        }
    }
    proof {
        assert(mw_views(rest@).to_multiset() =~= Multiset::<SpecMiddleware>::empty());
        assert(mw_views(out@).to_multiset() =~= orig.to_multiset());
    }
    out
}

/// A sorted table runs its entries in ascending order value: what stands
/// earlier never has a greater order.
pub proof fn lemma_middleware_order(table: Seq<SpecMiddleware>, i: int, j: int)
    requires
        sorted_by_order(table),
        0 <= i < j < table.len(),
    ensures
        table[i].order <= table[j].order,
{
}

} // verus!
