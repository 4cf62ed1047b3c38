//! Response assembly: choose the response's media type, serialize the body
//! with the chosen type's strategy, and lay the headers and cookies out as
//! wire lines, keeping every repeated value and dropping only what cannot
//! be carried in a header line. Some response always comes out.

use vstd::prelude::*;

use crate::io::cookies::SpecCookies;
use crate::io::header_data::SpecHeaderData;
use crate::io::headers::{spec_get_first, spec_negotiate, spec_replace_header_data, SpecHeaders};
use crate::io::io::{spec_io_wf, IO};
use crate::io::mime::SpecMime;
use crate::io::response_data::ResponseData;
use crate::parser::value::{JsonValue, SpecJson};
use crate::util::keymap::spec_lookup;
use crate::util::strutil::{lower_seq, str_eq, to_lower};
use crate::ResponseContentTypeStrategy;

verus! {

/// The media types responses can be encoded into.
pub open spec fn response_mime_types() -> Seq<Seq<char>> {
    seq!["text/plain"@, "application/json"@]
}

/// The response every request starts from.
pub fn get_initial_response() -> (r: ResponseData)
    ensures
        r@.status == 200,
        r@.body is None,
        crate::io::response_data::spec_response_wf(r@),
{
    ResponseData::default()
}

/// The response's media type: an already-set supported Content-Type header
/// is kept; otherwise the request's Accept set negotiates against the
/// supported types, and plain text stands in when nothing is negotiated.
pub open spec fn spec_chosen_type(req_accept: Seq<SpecMime>, resp: SpecHeaders) -> Seq<char> {
    let existing = spec_get_first(resp, "content-type"@);
    if existing matches Some(h) && (h.value matches Some(v) && (v == "text/plain"@ || v
        == "application/json"@)) {
        existing->Some_0.value->Some_0
    } else {
        match spec_negotiate(req_accept, response_mime_types()) {
            Some(m) => m,
            None => "text/plain"@,
        }
    }
}

/// The response headers after the media type is chosen: untouched when a
/// supported Content-Type was already set, otherwise that header is
/// replaced with the chosen type.
pub open spec fn spec_set_ct_headers(req_accept: Seq<SpecMime>, resp: SpecHeaders) -> SpecHeaders {
    let existing = spec_get_first(resp, "content-type"@);
    if existing matches Some(h) && (h.value matches Some(v) && (v == "text/plain"@ || v
        == "application/json"@)) {
        resp
    } else {
        spec_replace_header_data(
            resp,
            SpecHeaderData {
                name: "content-type"@,
                value: Some(spec_chosen_type(req_accept, resp)),
                value_bytes: vstd::utf8::encode_utf8(spec_chosen_type(req_accept, resp)),
            },
        )
    }
}

/// Chooses the response's media type and records it in the response's
/// headers where none of the supported types was set.
pub fn set_content_type(io: &mut IO) -> (r: String)
    requires
        spec_io_wf(old(io)@),
    ensures
        r@ == spec_chosen_type(old(io)@.request.headers.accept, old(io)@.response.headers),
        final(io)@.request == old(io)@.request,
        final(io)@.context == old(io)@.context,
        final(io)@.response.status == old(io)@.response.status,
        final(io)@.response.body == old(io)@.response.body,
        final(io)@.response.cookies == old(io)@.response.cookies,
        final(io)@.response.headers == spec_set_ct_headers(
            old(io)@.request.headers.accept,
            old(io)@.response.headers,
        ),
        spec_io_wf(final(io)@),
{
    match io.response.headers.get_value("content-type") {
        Some(v) => {
            if str_eq(v.as_str(), "text/plain") || str_eq(v.as_str(), "application/json") {
                return v.clone();
            }
        },
        None => {},
    }
    let availables: [&str; 2] = ["text/plain", "application/json"];
    proof {
        assert(crate::io::headers::avail_views(availables@) =~= response_mime_types());
    }
    let mime_type = io.request.headers.content_negotiation(availables.as_slice());
    let chosen = match mime_type {
        Some(m) => m,
        None => String::from_str("text/plain"),
    };
    io.response.headers.replace_header(
        String::from_str("content-type"),
        chosen.clone(),
    );
    chosen
}

/// The bytes a response body serializes to: the body value, or an empty
/// string where none was set, encoded by the chosen type's strategy; a type
/// without a strategy leaves the body empty, never failing the response.
pub open spec fn spec_response_body_bytes(
    body: Option<SpecJson>,
    ct: Seq<char>,
    reg: Seq<(Seq<char>, crate::Codec)>,
) -> Seq<u8> {
    let v = match body {
        Some(b) => b,
        None => SpecJson::Str(Seq::empty()),
    };
    match spec_lookup(reg, lower_seq(ct)) {
        Some(codec) => crate::spec_encode(codec, v),
        None => Seq::empty(),
    }
}

/// Serializes the response body with the chosen type's strategy.
pub fn get_body_response(
    response: &ResponseData,
    content_type: &str,
    strategies: &ResponseContentTypeStrategy,
) -> (r: Vec<u8>)
    ensures
        r@ == spec_response_body_bytes(response@.body, content_type@, strategies.view()),
{
    let value: JsonValue = match &response.body {
        Some(b) => b.duplicate(),
        None => JsonValue::Str(String::new()),
    };
    match strategies.exec(content_type, &value) {
        Ok(inner) => match inner {
            Ok(b) => b,
            Err(_) => Vec::new(),
        },
        Err(_) => {
            proof {
                assert(Seq::<u8>::empty() =~= spec_response_body_bytes(
                    response@.body,
                    content_type@,
                    strategies.view(),
                ));
            }
            Vec::new()
        },
    }
}

/// Whether a character may stand in a header name on the wire.
pub open spec fn spec_valid_name_char(c: char) -> bool {
    ('a' <= c && c <= 'z') || ('A' <= c && c <= 'Z') || ('0' <= c && c <= '9') || c == '!' || c
        == '#' || c == '$' || c == '%' || c == '&' || c == '\'' || c == '*' || c == '+' || c == '-'
        || c == '.' || c == '^' || c == '_' || c == '`' || c == '|' || c == '~'
}

/// Whether a name can be a wire header name: non-empty and made of token
/// characters.
pub open spec fn spec_valid_header_name(s: Seq<char>) -> bool {
    s.len() >= 1 && forall|i: int| 0 <= i < s.len() ==> spec_valid_name_char(#[trigger] s[i])
}

/// Whether a byte may stand in a header value on the wire: horizontal tab,
/// or any byte that is neither a control byte nor delete.
pub open spec fn spec_valid_value_byte(b: u8) -> bool {
    b == 9 || (b >= 32 && b != 127)
}

pub open spec fn spec_valid_header_value(bs: Seq<u8>) -> bool {
    forall|i: int| 0 <= i < bs.len() ==> spec_valid_value_byte(#[trigger] bs[i])
}

fn valid_header_name(s: &str) -> (r: bool)
    ensures
        r == spec_valid_header_name(s@),
{
    let cs = crate::util::strutil::chars_of(s);
    let n = cs.len();
    if n == 0 {
        return false;
    }
    let mut i: usize = 0;
    while i < n
        invariant
            n == cs@.len(),
            cs@ == s@,
            i <= n,
            forall|j: int| 0 <= j < i ==> spec_valid_name_char(#[trigger] s@[j]),
        decreases n - i,
    {
        let c = cs[i];
        let ok = ('a' <= c && c <= 'z') || ('A' <= c && c <= 'Z') || ('0' <= c && c <= '9') || c
            == '!' || c == '#' || c == '$' || c == '%' || c == '&' || c == '\'' || c == '*' || c
            == '+' || c == '-' || c == '.' || c == '^' || c == '_' || c == '`' || c == '|' || c
            == '~';
        if !ok {
            return false;
        }
        i = i + 1;
    }
    true
}

fn valid_header_value(bs: &Vec<u8>) -> (r: bool)
    ensures
        r == spec_valid_header_value(bs@),
{
    let n = bs.len();
    let mut i: usize = 0;
    while i < n
        invariant
            n == bs@.len(),
            i <= n,
            forall|j: int| 0 <= j < i ==> spec_valid_value_byte(#[trigger] bs@[j]),
        decreases n - i,
    {
        let b = bs[i];
        if !(b == 9 || (b >= 32 && b != 127)) {
            return false;
        }
        i = i + 1;
    }
    true
}

/// The wire lines of one entry's header list, in order: a line whose name
/// or value cannot be carried is dropped, and names go out lower-cased.
pub open spec fn spec_wire_lines(lines: Seq<SpecHeaderData>) -> Seq<(Seq<char>, Seq<u8>)>
    decreases lines.len(),
{
    if lines.len() == 0 {
        Seq::empty()
    } else {
        let rest = spec_wire_lines(lines.drop_last());
        let d = lines.last();
        if spec_valid_header_name(d.name) && spec_valid_header_value(d.value_bytes) {
            rest.push((lower_seq(d.name), d.value_bytes))
        } else {
            rest
        }
    }
}

/// The wire lines of a whole header store, entry by entry.
pub open spec fn spec_wire_headers(entries: Seq<(Seq<char>, Seq<SpecHeaderData>)>) -> Seq<
    (Seq<char>, Seq<u8>),
>
    decreases entries.len(),
{
    if entries.len() == 0 {
        Seq::empty()
    } else {
        spec_wire_headers(entries.drop_last()) + spec_wire_lines(entries.last().1)
    }
}

/// The set-cookie lines of one entry's values, in order: every stored value
/// that can be carried becomes its own line.
pub open spec fn spec_cookie_lines(vals: Seq<Seq<char>>) -> Seq<(Seq<char>, Seq<u8>)>
    decreases vals.len(),
{
    if vals.len() == 0 {
        Seq::empty()
    } else {
        let rest = spec_cookie_lines(vals.drop_last());
        let bytes = vstd::utf8::encode_utf8(vals.last());
        if spec_valid_header_value(bytes) {
            rest.push(("set-cookie"@, bytes))
        } else {
            rest
        }
    }
}

/// The set-cookie lines of a whole cookie store, entry by entry.
pub open spec fn spec_wire_cookies(cookies: SpecCookies) -> Seq<(Seq<char>, Seq<u8>)>
    decreases cookies.len(),
{
    if cookies.len() == 0 {
        Seq::empty()
    } else {
        spec_wire_cookies(cookies.drop_last()) + spec_cookie_lines(cookies.last().1)
    }
}

/// Header multiplicity on the wire: where every value under one cookie name
/// can be carried, each of them becomes its own set-cookie line, in order —
/// repeated values are never collapsed.
pub proof fn lemma_cookie_lines_keep_every_value(vals: Seq<Seq<char>>)
    requires
        forall|i: int|
            0 <= i < vals.len() ==> spec_valid_header_value(
                vstd::utf8::encode_utf8(#[trigger] vals[i]),
            ),
    ensures
        spec_cookie_lines(vals).len() == vals.len(),
        forall|i: int|
            0 <= i < vals.len() ==> spec_cookie_lines(vals)[i] == (
            "set-cookie"@,
            vstd::utf8::encode_utf8(#[trigger] vals[i]),
            ),
    decreases vals.len(),
{
    if vals.len() > 0 {
        assert(forall|i: int| 0 <= i < vals.len() - 1 ==> vals.drop_last()[i] == vals[i]);
        lemma_cookie_lines_keep_every_value(vals.drop_last());
    }
}

/// The mathematical content of a serialized response.
pub struct SpecWireResponse {
    pub status: u16,
    pub headers: Seq<(Seq<char>, Seq<u8>)>,
    pub body: Seq<u8>,
}

/// A response laid out for the wire: the status code, the header lines in
/// emission order (cookies after the other headers), and the body bytes.
pub struct WireResponse {
    pub status: u16,
    pub headers: Vec<(String, Vec<u8>)>,
    pub body: Vec<u8>,
}

/// The views of wire header lines.
pub open spec fn wire_views(l: Seq<(String, Vec<u8>)>) -> Seq<(Seq<char>, Seq<u8>)> {
    Seq::new(l.len(), |i: int| (l[i].0@, l[i].1@))
}

impl View for WireResponse {
    type V = SpecWireResponse;

    open spec fn view(&self) -> SpecWireResponse {
        SpecWireResponse {
            status: self.status,
            headers: wire_views(self.headers@),
            body: self.body@,
        }
    }
}

/// What serializing a response emits, once the media type is chosen and
/// recorded: with a status a wire line can carry, the status, every header
/// line followed by every cookie line, and the encoded body; with a status
/// outside the wire's range, a bare server error.
pub open spec fn spec_wire_response(
    resp: crate::io::response_data::SpecResponseData,
    ct: Seq<char>,
    reg: Seq<(Seq<char>, crate::Codec)>,
) -> SpecWireResponse {
    if 100 <= resp.status <= 999 {
        SpecWireResponse {
            status: resp.status,
            headers: spec_wire_headers(resp.headers.entries) + spec_wire_cookies(resp.cookies),
            body: spec_response_body_bytes(resp.body, ct, reg),
        }
    } else {
        SpecWireResponse { status: 500, headers: Seq::empty(), body: Seq::empty() }
    }
}

/// Serializes the response: negotiates and records the media type, encodes
/// the body, and lays out the headers and cookies as wire lines, keeping
/// every repeated value. Always returns some response.
pub fn generate_response(io: &mut IO, strategies: &ResponseContentTypeStrategy) -> (r:
    WireResponse)
    requires
        spec_io_wf(old(io)@),
    ensures
        final(io)@.request == old(io)@.request,
        final(io)@.context == old(io)@.context,
        final(io)@.response.status == old(io)@.response.status,
        final(io)@.response.body == old(io)@.response.body,
        final(io)@.response.cookies == old(io)@.response.cookies,
        ({
            let ct = spec_chosen_type(old(io)@.request.headers.accept, old(io)@.response.headers);
            let h1 = spec_set_ct_headers(old(io)@.request.headers.accept, old(io)@.response.headers);
            let h2 = spec_replace_header_data(
                h1,
                SpecHeaderData {
                    name: "content-type"@,
                    value: Some(ct),
                    value_bytes: vstd::utf8::encode_utf8(ct),
                },
            );
            final(io)@.response.headers == h2 && r@ == spec_wire_response(
                final(io)@.response,
                ct,
                strategies.view(),
            )
        }),
        spec_io_wf(final(io)@),
{
    let ct = set_content_type(io);
    let body = get_body_response(&io.response, ct.as_str(), strategies);
    io.response.headers.replace_header(String::from_str("content-type"), ct.clone());
    if io.response.status < 100 || io.response.status > 999 {
        let r = WireResponse { status: 500, headers: Vec::new(), body: Vec::new() };
        proof {
            assert(r@.headers =~= Seq::<(Seq<char>, Seq<u8>)>::empty());
            assert(r@.body =~= Seq::<u8>::empty());
        }
        return r;
    }
    let mut lines: Vec<(String, Vec<u8>)> = Vec::new();
    append_headers(&mut lines, &io.response);
    append_cookies(&mut lines, &io.response);
    WireResponse { status: io.response.status, headers: lines, body }
}

/// Appends the wire lines of every header entry.
fn append_headers(lines: &mut Vec<(String, Vec<u8>)>, response: &ResponseData)
    ensures
        wire_views(final(lines)@) == wire_views(old(lines)@) + spec_wire_headers(
            response@.headers.entries,
        ),
{
    let ghost pre = wire_views(lines@);
    let ghost entries = response@.headers.entries;
    let all = response.headers.iter_all();
    let n = all.items.len();
    let ghost lists = crate::io::headers::line_views(all.items@);
    proof {
        assert(lists =~= crate::io::headers::spec_entry_lines(entries));
        assert(entries.take(0) =~= Seq::<(Seq<char>, Seq<SpecHeaderData>)>::empty());
        assert(wire_views(lines@) =~= pre + spec_wire_headers(entries.take(0)));
    }
    let mut i: usize = 0;
    while i < n
        invariant
            n == all.items@.len(),
            lists == crate::io::headers::line_views(all.items@),
            lists == crate::io::headers::spec_entry_lines(entries),
            n == entries.len(),
            i <= n,
            wire_views(lines@) == pre + spec_wire_headers(entries.take(i as int)),
        decreases n - i,
    {
        proof {
            assert(entries.take(i + 1).drop_last() =~= entries.take(i as int));
            assert(entries.take(i + 1).last() == entries[i as int]);
            assert(lists[i as int] == entries[i as int].1);
            assert(lists[i as int] == crate::io::headers::hd_views(all.items@[i as int]@));
        }
        let m = all.items[i].len();
        let ghost entry_lines = entries[i as int].1;
        let mut k: usize = 0;
        proof {
            assert(entry_lines.take(0) =~= Seq::<SpecHeaderData>::empty());
            assert(wire_views(lines@) =~= pre + spec_wire_headers(entries.take(i as int))
                + spec_wire_lines(entry_lines.take(0)));
        }
        while k < m
            invariant
                i < n,
                n == all.items@.len(),
                m == all.items@[i as int]@.len(),
                entry_lines == crate::io::headers::hd_views(all.items@[i as int]@),
                m == entry_lines.len(),
                k <= m,
                wire_views(lines@) == pre + spec_wire_headers(entries.take(i as int))
                    + spec_wire_lines(entry_lines.take(k as int)),
            decreases m - k,
        {
            proof {
                assert(entry_lines.take(k + 1).drop_last() =~= entry_lines.take(k as int));
                assert(entry_lines.take(k + 1).last() == entry_lines[k as int]);
                assert(entry_lines[k as int] == all.items@[i as int]@[k as int]@);
            }
            let d = &all.items[i][k];
            if valid_header_name(d.name.as_str()) && valid_header_value(&d.value_bytes) {
                let name = to_lower(d.name.as_str());
                let bytes = crate::io::header_data::clone_bytes(&d.value_bytes);
                let ghost lv = wire_views(lines@);
                lines.push((name, bytes));
                proof {
                    assert(wire_views(lines@) =~= lv.push(
                        (lines@.last().0@, lines@.last().1@),
                    ));
                    assert(wire_views(lines@) =~= pre + spec_wire_headers(entries.take(i as int))
                        + spec_wire_lines(entry_lines.take(k + 1)));
                }
            }
            k = k + 1;
        }
        proof {
            assert(entry_lines.take(m as int) =~= entry_lines);
            assert(wire_views(lines@) =~= pre + spec_wire_headers(entries.take(i + 1)));
        }
        i = i + 1;
    }
    proof {
        assert(entries.take(n as int) =~= entries);
    }
}

/// Appends one set-cookie line for every stored cookie value.
fn append_cookies(lines: &mut Vec<(String, Vec<u8>)>, response: &ResponseData)
    ensures
        wire_views(final(lines)@) == wire_views(old(lines)@) + spec_wire_cookies(
            response@.cookies,
        ),
{
    let ghost pre = wire_views(lines@);
    let ghost cookies = response@.cookies;
    let all = response.cookies.iter_all();
    let n = all.items.len();
    let ghost lists = crate::io::cookies::strs_list_views(all.items@);
    proof {
        assert(lists =~= crate::io::cookies::spec_cookie_lists(cookies));
        assert(cookies.take(0) =~= Seq::<(Seq<char>, Seq<Seq<char>>)>::empty());
        assert(wire_views(lines@) =~= pre + spec_wire_cookies(cookies.take(0)));
    }
    let mut i: usize = 0;
    while i < n
        invariant
            n == all.items@.len(),
            lists == crate::io::cookies::strs_list_views(all.items@),
            lists == crate::io::cookies::spec_cookie_lists(cookies),
            n == cookies.len(),
            i <= n,
            wire_views(lines@) == pre + spec_wire_cookies(cookies.take(i as int)),
        decreases n - i,
    {
        proof {
            assert(cookies.take(i + 1).drop_last() =~= cookies.take(i as int));
            assert(cookies.take(i + 1).last() == cookies[i as int]);
            assert(lists[i as int] == cookies[i as int].1);
            assert(lists[i as int] == crate::io::cookies::strs_views(all.items@[i as int]@));
        }
        let m = all.items[i].len();
        let ghost vals = cookies[i as int].1;
        let mut k: usize = 0;
        proof {
            assert(vals.take(0) =~= Seq::<Seq<char>>::empty());
            assert(wire_views(lines@) =~= pre + spec_wire_cookies(cookies.take(i as int))
                + spec_cookie_lines(vals.take(0)));
        }
        while k < m
            invariant
                i < n,
                n == all.items@.len(),
                m == all.items@[i as int]@.len(),
                vals == crate::io::cookies::strs_views(all.items@[i as int]@),
                m == vals.len(),
                k <= m,
                wire_views(lines@) == pre + spec_wire_cookies(cookies.take(i as int))
                    + spec_cookie_lines(vals.take(k as int)),
            decreases m - k,
        {
            proof {
                assert(vals.take(k + 1).drop_last() =~= vals.take(k as int));
                assert(vals.take(k + 1).last() == vals[k as int]);
                assert(vals[k as int] == all.items@[i as int]@[k as int]@);
            }
            let v = &all.items[i][k];
            let bytes = v.as_str().as_bytes_vec();
            if valid_header_value(&bytes) {
                let ghost lv = wire_views(lines@);
                lines.push((String::from_str("set-cookie"), bytes));
                proof {
                    assert(wire_views(lines@) =~= lv.push(
                        (lines@.last().0@, lines@.last().1@),
                    ));
                    assert(wire_views(lines@) =~= pre + spec_wire_cookies(cookies.take(i as int))
                        + spec_cookie_lines(vals.take(k + 1)));
                }
            }
            k = k + 1;
        }
        proof {
            assert(vals.take(m as int) =~= vals);
            assert(wire_views(lines@) =~= pre + spec_wire_cookies(cookies.take(i + 1)));
        }
        i = i + 1;
    }
    proof {
        assert(cookies.take(n as int) =~= cookies);
    }
}

} // verus!
