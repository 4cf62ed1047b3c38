//! Request ingestion: the header store with its parsed Accept set, the
//! cookie store, the content type of the body, and the body itself decoded
//! through the strategy registry.

use vstd::prelude::*;

use crate::body::body::BodyData;
use crate::io::cookies::{cookie_parse_of, spec_cookies_append, spec_cookies_wf, Cookies,
    SpecCookies, strs_views};
use crate::io::header_data::{HeaderData, SpecHeaderData};
use crate::io::headers::{
    accept_set_of, hd_views, mime_views, spec_add_header_data, spec_headers_wf, Headers,
    SpecHeaders,
};
use crate::io::mime::{spec_parse_accept_entry, Mime, SpecMime};
use crate::parser::value::JsonValue;
use crate::util::keymap::spec_lookup;
use crate::util::strutil::{lower_seq, split_chars, split_seq, str_eq, string_from_chars,
    chars_of, views_of};
use crate::ContentTypeStrategy;

verus! {

/// The entries of an Accept header that parse, in order.
pub open spec fn spec_parsed_mimes(entries: Seq<Seq<char>>) -> Seq<SpecMime>
    decreases entries.len(),
{
    if entries.len() == 0 {
        Seq::empty()
    } else {
        let rest = spec_parsed_mimes(entries.drop_last());
        match spec_parse_accept_entry(entries.last()) {
            Some(m) => rest.push(m),
            None => rest,
        }
    }
}

/// The media types an Accept header value names, in the order its entries
/// stand in; entries that do not parse are dropped.
pub fn parse_accept_header(value: &str) -> (r: Vec<Mime>)
    ensures
        mime_views(r@) == spec_parsed_mimes(split_seq(value@, ',')),
{
    let cs = chars_of(value);
    let pieces = split_chars(&cs, ',');
    let ghost entries = split_seq(value@, ',');
    let mut mimes: Vec<Mime> = Vec::new();
    let n = pieces.len();
    let mut i: usize = 0;
    proof {
        assert(entries.take(0) =~= Seq::<Seq<char>>::empty());
        assert(mime_views(mimes@) =~= spec_parsed_mimes(entries.take(0)));
    }
    while i < n
        invariant
            n == pieces@.len(),
            views_of(pieces@) == entries,
            i <= n,
            mime_views(mimes@) == spec_parsed_mimes(entries.take(i as int)),
        decreases n - i,
    {
        proof {
            assert(entries.take(i + 1).drop_last() =~= entries.take(i as int));
            assert(entries.take(i + 1).last() == entries[i as int]);
            assert(entries[i as int] == pieces@[i as int]@);
        }
        let piece = string_from_chars(&pieces[i]);
        match Mime::from_accept_str(piece.as_str()) {
            Ok(m) => {
                let ghost pre = mimes@;
                mimes.push(m);
                proof {
                    assert(mime_views(mimes@) =~= mime_views(pre).push(mimes@.last()@));
                    assert(mime_views(mimes@) =~= spec_parsed_mimes(entries.take(i + 1)));
                }
            },
            Err(()) => {},
        }
        i = i + 1;
    }
    proof {
        assert(entries.take(n as int) =~= entries);
    }
    mimes
}

/// Ingesting one header line: an `accept` line also re-derives the ordered
/// Accept set from its text value (a line without a text value empties it);
/// every line is then stored.
pub open spec fn spec_ingest_header(h: SpecHeaders, d: SpecHeaderData) -> SpecHeaders {
    let with_accept = if d.name == "accept"@ {
        SpecHeaders {
            entries: h.entries,
            accept: match d.value {
                Some(v) => accept_set_of(spec_parsed_mimes(split_seq(v, ','))),
                None => Seq::empty(),
            },
        }
    } else {
        h
    };
    spec_add_header_data(with_accept, d)
}

/// Ingesting a whole header list, in order.
pub open spec fn spec_ingest_headers(h: SpecHeaders, list: Seq<SpecHeaderData>) -> SpecHeaders
    decreases list.len(),
{
    if list.len() == 0 {
        h
    } else {
        spec_ingest_header(spec_ingest_headers(h, list.drop_last()), list.last())
    }
}

/// Builds the request's header store from the raw header lines, in arrival
/// order, parsing the Accept header specially into the quality-ordered set.
pub fn get_headers(list: Vec<HeaderData>) -> (r: Headers)
    ensures
        r@ == spec_ingest_headers(
            SpecHeaders { entries: Seq::empty(), accept: Seq::empty() },
            hd_views(list@),
        ),
        spec_headers_wf(r@),
{
    let ghost all = hd_views(list@);
    let mut headers = Headers::new();
    proof {
        assert(headers@ =~~= (SpecHeaders { entries: Seq::empty(), accept: Seq::empty() })) by {
            assert(headers@.entries =~= Seq::<(Seq<char>, Seq<SpecHeaderData>)>::empty());
            assert(headers@.accept =~= Seq::<SpecMime>::empty());
        }
        assert(all.take(0) =~= Seq::<SpecHeaderData>::empty());
    }
    let n = list.len();
    let mut i: usize = 0;
    while i < n
        invariant
            n == list@.len(),
            all == hd_views(list@),
            i <= n,
            headers@ == spec_ingest_headers(
                SpecHeaders { entries: Seq::empty(), accept: Seq::empty() },
                all.take(i as int),
            ),
            spec_headers_wf(headers@),
        decreases n - i,
    {
        proof {
            assert(all.take(i + 1).drop_last() =~= all.take(i as int));
            assert(all.take(i + 1).last() == all[i as int]);
            assert(all[i as int] == list@[i as int]@);
        }
        let data = list[i].duplicate();
        if str_eq(data.name.as_str(), "accept") {
            match &data.value {
                Some(v) => {
                    let mimes = parse_accept_header(v.as_str());
                    headers.set_accept(mimes);
                },
                None => {
                    let empty: Vec<Mime> = Vec::new();
                    proof {
                        assert(mime_views(empty@) =~= Seq::<SpecMime>::empty());
                        assert(accept_set_of(mime_views(empty@)) =~= Seq::<SpecMime>::empty());
                    }
                    headers.set_accept(empty);
                },
            }
        }
        headers.add_header_data(data);
        i = i + 1;
    }
    proof {
        assert(all.take(n as int) =~= all);
    }
    headers
}

/// Ingesting the cookie header values, in order: each value that parses as
/// a cookie is appended under its name.
pub open spec fn spec_ingest_cookies(m: SpecCookies, vals: Seq<Seq<char>>) -> SpecCookies
    decreases vals.len(),
{
    if vals.len() == 0 {
        m
    } else {
        let rest = spec_ingest_cookies(m, vals.drop_last());
        match cookie_parse_of(vals.last()) {
            Some(p) => spec_cookies_append(rest, p.0, p.1),
            None => rest,
        }
    }
}

/// Builds the request's cookie store from the text values of its Cookie
/// headers, in arrival order; values that are not cookies are dropped.
pub fn get_cookies(values: Vec<String>) -> (r: Cookies)
    ensures
        r@ == spec_ingest_cookies(
            Seq::<(Seq<char>, Seq<Seq<char>>)>::empty(),
            strs_views(values@),
        ),
        spec_cookies_wf(r@),
{
    let ghost vals = strs_views(values@);
    let mut cookies = Cookies::new();
    proof {
        assert(vals.take(0) =~= Seq::<Seq<char>>::empty());
    }
    let n = values.len();
    let mut i: usize = 0;
    while i < n
        invariant
            n == values@.len(),
            vals == strs_views(values@),
            i <= n,
            cookies@ == spec_ingest_cookies(
                Seq::<(Seq<char>, Seq<Seq<char>>)>::empty(),
                vals.take(i as int),
            ),
            spec_cookies_wf(cookies@),
        decreases n - i,
    {
        proof {
            assert(vals.take(i + 1).drop_last() =~= vals.take(i as int));
            assert(vals.take(i + 1).last() == vals[i as int]);
            assert(vals[i as int] == values@[i as int]@);
        }
        let _ = cookies.add_cookie(values[i].as_str());
        i = i + 1;
    }
    proof {
        assert(vals.take(n as int) =~= vals);
    }
    cookies
}

/// The content type a request body is decoded under: the first
/// `content-type` header's text value when it is one of the decodable
/// types, and plain text otherwise.
pub open spec fn spec_content_type(h: Option<SpecHeaderData>) -> Seq<char> {
    let v = match h {
        Some(hd) => match hd.value {
            Some(s) => s,
            None => "text/plain"@,
        },
        None => "text/plain"@,
    };
    if v == "text/plain"@ || v == "application/json"@ {
        v
    } else {
        "text/plain"@
    }
}

/// The content type a request body is decoded under.
pub fn get_content_type(header: Option<&HeaderData>) -> (r: String)
    ensures
        r@ == spec_content_type(
            match header {
                Some(h) => Some(h@),
                None => None,
            },
        ),
{
    match header {
        Some(h) => {
            match &h.value {
                Some(v) => {
                    if str_eq(v.as_str(), "text/plain") || str_eq(v.as_str(), "application/json") {
                        v.clone()
                    } else {
                        String::from_str("text/plain")
                    }
                },
                None => String::from_str("text/plain"),
            }
        },
        None => String::from_str("text/plain"),
    }
}

/// What the multipart boundary of a Content-Type header value is, if the
/// value declares `multipart/form-data` with a boundary parameter.
pub uninterp spec fn boundary_of(ct: Seq<char>) -> Option<Seq<char>>;

/// Relies on `multer::parse_boundary`: whether a Content-Type value names a
/// multipart boundary, and the boundary itself, depend on the value alone.
#[verifier::external_body]
fn parse_multipart_boundary(content_type: &str) -> (r: Option<String>)
    ensures
        (r is Some) == (boundary_of(content_type@) is Some),
        r matches Some(b) ==> boundary_of(content_type@) == Some(b@),
{
    match multer::parse_boundary(content_type) {
        Ok(b) => Some(b),
        Err(_) => None,
    }
}

/// The multipart boundary a request declares, read from the first
/// `content-type` header's text value.
pub fn request_boundary(headers: &Headers) -> (r: Option<String>)
    requires
        spec_headers_wf(headers@),
    ensures
        match crate::io::headers::spec_get_first(headers@, "content-type"@) {
            Some(h) => match h.value {
                Some(v) => match boundary_of(v) {
                    Some(b) => r matches Some(s) && s@ == b,
                    None => r is None,
                },
                None => r is None,
            },
            None => r is None,
        },
{
    match headers.get_value("content-type") {
        Some(v) => parse_multipart_boundary(v.as_str()),
        None => None,
    }
}

/// What the decoded body value of a non-multipart request is: the bytes
/// decoded by the strategy registered under the request's content type, or
/// nothing when the registry misses or the codec rejects the bytes.
pub open spec fn spec_body_value(
    bytes: Seq<u8>,
    headers: SpecHeaders,
    reg: Seq<(Seq<char>, crate::Codec)>,
) -> Option<crate::parser::value::SpecJson> {
    let ct = spec_content_type(crate::io::headers::spec_get_first(headers, "content-type"@));
    match spec_lookup(reg, lower_seq(ct)) {
        None => None,
        Some(codec) => crate::spec_decode(codec, bytes),
    }
}

/// Decodes a non-multipart request body through the strategy registry; a
/// body that cannot be decoded leaves the value empty and never fails the
/// request.
pub fn get_body(bytes: &Vec<u8>, headers: &Headers, strategies: &ContentTypeStrategy) -> (r:
    BodyData)
    requires
        spec_headers_wf(headers@),
    ensures
        r@.value == spec_body_value(bytes@, headers@, strategies.view()),
        r@.files =~= Seq::<crate::body::body::SpecFileData>::empty(),
{
    let ct = get_content_type(headers.get("content-type"));
    let value: Option<JsonValue> = match strategies.exec(ct.as_str(), bytes) {
        Ok(inner) => match inner {
            Ok(v) => Some(v),
            Err(_) => None,
        },
        Err(_) => None,
    };
    BodyData { value, files: Vec::new() }
}

} // verus!
