//! The header store: a map from header name to the ordered list of values
//! under that name (a header such as Set-Cookie may repeat), together with
//! the request's parsed Accept entries kept in quality order.
//!
//! Lookup is case-sensitive; callers normalize names before access.

use vstd::prelude::*;

use crate::io::header_data::{HeaderData, SpecHeaderData};
use crate::io::mime::{
    accept_before, accept_same_rank, spec_accept_all, spec_accept_all_media_types,
    spec_accept_all_subtypes, spec_mime_type, Mime, SpecMime,
};
use crate::util::keymap::{
    lemma_index_of_key_none, lemma_index_of_key_props, lemma_index_of_key_witness,
    spec_distinct_keys, spec_index_of_key,
};
use crate::util::strutil::{first_index_of, lower_seq, str_eq, to_lower};

verus! {

/// The mathematical content of a header store.
pub struct SpecHeaders {
    pub entries: Seq<(Seq<char>, Seq<SpecHeaderData>)>,
    pub accept: Seq<SpecMime>,
}

/// The views of a list of header lines.
pub open spec fn hd_views(l: Seq<HeaderData>) -> Seq<SpecHeaderData> {
    Seq::new(l.len(), |i: int| l[i]@)
}

/// The views of a list of media types.
pub open spec fn mime_views(l: Seq<Mime>) -> Seq<SpecMime> {
    Seq::new(l.len(), |i: int| l[i]@)
}

/// Well-formedness: one entry per name, no entry empty, and the Accept set
/// strictly ordered, best first.
pub open spec fn spec_headers_wf(h: SpecHeaders) -> bool {
    &&& spec_distinct_keys(h.entries)
    &&& forall|i: int| 0 <= i < h.entries.len() ==> (#[trigger] h.entries[i]).1.len() >= 1
    &&& accept_strictly_ordered(h.accept)
}

/// Strictly ordered: every entry is served before every later one, so no
/// two entries rank the same.
pub open spec fn accept_strictly_ordered(s: Seq<SpecMime>) -> bool {
    forall|i: int, j: int| 0 <= i < j < s.len() ==> accept_before(#[trigger] s[i], #[trigger] s[j])
}

/// The first header line under `k`, if the name is present.
pub open spec fn spec_get_first(h: SpecHeaders, k: Seq<char>) -> Option<SpecHeaderData> {
    match spec_index_of_key(h.entries, k) {
        None => None,
        Some(i) => Some(h.entries[i].1[0]),
    }
}

/// Appending one header line: a new name opens a new entry at the end, a
/// known name appends to its list.
pub open spec fn spec_add_header_data(h: SpecHeaders, d: SpecHeaderData) -> SpecHeaders {
    match spec_index_of_key(h.entries, d.name) {
        None => SpecHeaders { entries: h.entries.push((d.name, seq![d])), accept: h.accept },
        Some(i) => SpecHeaders {
            entries: h.entries.update(i, (h.entries[i].0, h.entries[i].1.push(d))),
            accept: h.accept,
        },
    }
}

/// Replacing a header: the whole list under the name becomes the one line.
pub open spec fn spec_replace_header_data(h: SpecHeaders, d: SpecHeaderData) -> SpecHeaders {
    match spec_index_of_key(h.entries, d.name) {
        None => SpecHeaders { entries: h.entries.push((d.name, seq![d])), accept: h.accept },
        Some(i) => SpecHeaders {
            entries: h.entries.update(i, (h.entries[i].0, seq![d])),
            accept: h.accept,
        },
    }
}

/// Replacing one whole entry from another store, unless its name is
/// `accept` in any casing: the Accept set never comes from another store.
pub open spec fn spec_replace_entry(
    h: SpecHeaders,
    e: (Seq<char>, Seq<SpecHeaderData>),
) -> SpecHeaders {
    if lower_seq(e.0) == "accept"@ {
        h
    } else {
        match spec_index_of_key(h.entries, e.0) {
            None => SpecHeaders { entries: h.entries.push(e), accept: h.accept },
            Some(i) => SpecHeaders {
                entries: h.entries.update(i, (h.entries[i].0, e.1)),
                accept: h.accept,
            },
        }
    }
}

/// Replacing every entry of `others`, in order.
pub open spec fn spec_replace_entries(
    h: SpecHeaders,
    others: Seq<(Seq<char>, Seq<SpecHeaderData>)>,
) -> SpecHeaders
    decreases others.len(),
{
    if others.len() == 0 {
        h
    } else {
        spec_replace_entry(spec_replace_entries(h, others.drop_last()), others.last())
    }
}

/// Inserting one entry into an ordered Accept set: an entry that ranks the
/// same as a present one is dropped, the others keep the order.
pub open spec fn accept_insert(s: Seq<SpecMime>, m: SpecMime) -> Seq<SpecMime>
    decreases s.len(),
{
    if s.len() == 0 {
        seq![m]
    } else if accept_before(m, s[0]) {
        seq![m] + s
    } else if accept_same_rank(m, s[0]) {
        s
    } else {
        seq![s[0]] + accept_insert(s.drop_first(), m)
    }
}

/// The ordered Accept set built from a list of entries, inserted in order.
pub open spec fn accept_set_of(ms: Seq<SpecMime>) -> Seq<SpecMime>
    decreases ms.len(),
{
    if ms.len() == 0 {
        Seq::empty()
    } else {
        accept_insert(accept_set_of(ms.drop_last()), ms.last())
    }
}

/// The `type` half of an available media type, where it has the shape
/// `type/subtype` with a non-empty type.
pub open spec fn avail_type_matches(a: Seq<char>, t: Seq<char>) -> bool {
    match first_index_of(a, '/', 0) {
        Some(i) => a.take(i) == t && a.skip(i + 1).len() >= 1,
        None => false,
    }
}

/// The `subtype` half of an available media type, where it has the shape
/// `type/subtype` with a non-empty type.
pub open spec fn avail_subtype_matches(a: Seq<char>, s: Seq<char>) -> bool {
    match first_index_of(a, '/', 0) {
        Some(i) => i >= 1 && a.skip(i + 1) == s,
        None => false,
    }
}

/// Index of the first available type equal to `t`.
pub open spec fn first_avail_eq(avail: Seq<Seq<char>>, t: Seq<char>) -> Option<int>
    decreases avail.len(),
{
    if avail.len() == 0 {
        None
    } else if avail[0] == t {
        Some(0)
    } else {
        match first_avail_eq(avail.drop_first(), t) {
            None => None,
            Some(i) => Some(i + 1),
        }
    }
}

/// Index of the first available type whose subtype is `s`.
pub open spec fn first_avail_subtype(avail: Seq<Seq<char>>, s: Seq<char>) -> Option<int>
    decreases avail.len(),
{
    if avail.len() == 0 {
        None
    } else if avail_subtype_matches(avail[0], s) {
        Some(0)
    } else {
        match first_avail_subtype(avail.drop_first(), s) {
            None => None,
            Some(i) => Some(i + 1),
        }
    }
}

/// Index of the first available type whose type is `t`.
pub open spec fn first_avail_type(avail: Seq<Seq<char>>, t: Seq<char>) -> Option<int>
    decreases avail.len(),
{
    if avail.len() == 0 {
        None
    } else if avail_type_matches(avail[0], t) {
        Some(0)
    } else {
        match first_avail_type(avail.drop_first(), t) {
            None => None,
            Some(i) => Some(i + 1),
        }
    }
}

/// What one Accept entry selects from the available set: the first
/// available type for an accept-all entry, an exact match where there is
/// one, else the first with the wanted subtype for `*/subtype`, else the
/// first with the wanted type for `type/*`.
pub open spec fn spec_try_mime(m: SpecMime, avail: Seq<Seq<char>>) -> Option<Seq<char>> {
    if spec_accept_all(m) {
        Some(avail[0])
    } else if first_avail_eq(avail, spec_mime_type(m)) is Some {
        Some(spec_mime_type(m))
    } else if spec_accept_all_media_types(m) && first_avail_subtype(avail, m.subtype) is Some {
        Some(avail[first_avail_subtype(avail, m.subtype)->Some_0])
    } else if spec_accept_all_subtypes(m) && first_avail_type(avail, m.media_type) is Some {
        Some(avail[first_avail_type(avail, m.media_type)->Some_0])
    } else {
        None
    }
}

pub open spec fn spec_negotiate_list(
    accept: Seq<SpecMime>,
    avail: Seq<Seq<char>>,
) -> Option<Seq<char>>
    decreases accept.len(),
{
    if accept.len() == 0 {
        None
    } else {
        match spec_try_mime(accept[0], avail) {
            Some(r) => Some(r),
            None => spec_negotiate_list(accept.drop_first(), avail),
        }
    }
}

/// What content negotiation returns: nothing without Accept entries or
/// without available types; otherwise the choice of the best-ranked entry
/// that selects anything.
pub open spec fn spec_negotiate(accept: Seq<SpecMime>, avail: Seq<Seq<char>>) -> Option<
    Seq<char>,
> {
    if accept.len() == 0 || avail.len() == 0 {
        None
    } else {
        spec_negotiate_list(accept, avail)
    }
}

/// The views of a list of available types.
pub open spec fn avail_views(a: Seq<&str>) -> Seq<Seq<char>> {
    Seq::new(a.len(), |i: int| a[i]@)
}

/// The header store of one request or response.
pub struct Headers {
    headers: Vec<(String, Vec<HeaderData>)>,
    accept: Vec<Mime>,
}

impl View for Headers {
    type V = SpecHeaders;

    closed spec fn view(&self) -> SpecHeaders {
        SpecHeaders {
            entries: Seq::new(
                self.headers@.len(),
                |i: int| (self.headers@[i].0@, hd_views(self.headers@[i].1@)),
            ),
            accept: mime_views(self.accept@),
        }
    }
}

impl Headers {
    /// An empty store.
    pub fn new() -> (r: Self)
        ensures
            r@.entries =~= Seq::<(Seq<char>, Seq<SpecHeaderData>)>::empty(),
            r@.accept =~= Seq::<SpecMime>::empty(),
            spec_headers_wf(r@),
    {
        Self { headers: Vec::new(), accept: Vec::new() }
    }

    /// Index of the entry named `key`.
    fn find_index(&self, key: &str) -> (r: Option<usize>)
        ensures
            spec_index_of_key(self@.entries, key@) == match r {
                Some(i) => Some(i as int),
                None => None::<int>,
            },
    {
        let n = self.headers.len();
        let mut i: usize = 0;
        while i < n
            invariant
                n == self.headers@.len(),
                n == self@.entries.len(),
                i <= n,
                forall|j: int| 0 <= j < i ==> (#[trigger] self@.entries[j]).0 != key@,
                forall|j: int|
                    0 <= j < n ==> (#[trigger] self@.entries[j]).0 == self.headers@[j].0@,
            decreases n - i,
        {
            if str_eq(self.headers[i].0.as_str(), key) {
                proof {
                    lemma_index_of_key_witness(self@.entries, key@, i as int);
                }
                return Some(i);
            }
            i = i + 1;
        }
        proof {
            lemma_index_of_key_none(self@.entries, key@);
        }
        None
    }

    /// The first header line under `key`.
    pub fn get(&self, key: &str) -> (r: Option<&HeaderData>)
        requires
            spec_headers_wf(self@),
        ensures
            match r {
                Some(h) => spec_get_first(self@, key@) == Some(h@),
                None => spec_get_first(self@, key@) is None,
            },
    {
        match self.find_index(key) {
            Some(i) => {
                proof {
                    lemma_index_of_key_props(self@.entries, key@);
                }
                Some(&self.headers[i].1[0])
            },
            None => None,
        }
    }

    /// Whether a header named `key` is present.
    pub fn has(&self, key: &str) -> (r: bool)
        requires
            spec_headers_wf(self@),
        ensures
            r == (spec_index_of_key(self@.entries, key@) is Some),
    {
        self.find_index(key).is_some()
    }

    /// The first value under `key` as text. A header whose bytes are not
    /// valid text has no text value and yields nothing.
    pub fn get_value(&self, key: &str) -> (r: Option<&String>)
        requires
            spec_headers_wf(self@),
        ensures
            match r {
                Some(v) => spec_get_first(self@, key@) matches Some(h) && h.value == Some(v@),
                None => spec_get_first(self@, key@) is None || spec_get_first(
                    self@,
                    key@,
                )->Some_0.value is None,
            },
    {
        match self.find_index(key) {
            Some(i) => {
                proof {
                    lemma_index_of_key_props(self@.entries, key@);
                }
                match &self.headers[i].1[0].value {
                    Some(v) => Some(v),
                    None => None,
                }
            },
            None => None,
        }
    }

    /// The first value under `key` as raw bytes.
    pub fn get_value_bytes(&self, key: &str) -> (r: Option<&Vec<u8>>)
        requires
            spec_headers_wf(self@),
        ensures
            match r {
                Some(v) => spec_get_first(self@, key@) matches Some(h) && h.value_bytes == v@,
                None => spec_get_first(self@, key@) is None,
            },
    {
        match self.find_index(key) {
            Some(i) => {
                proof {
                    lemma_index_of_key_props(self@.entries, key@);
                }
                Some(&self.headers[i].1[0].value_bytes)
            },
            None => None,
        }
    }

    /// Appends a header line, creating its entry if the name is new.
    pub fn add_header_data(&mut self, data: HeaderData)
        requires
            spec_headers_wf(old(self)@),
        ensures
            final(self)@ == spec_add_header_data(old(self)@, data@),
            spec_headers_wf(final(self)@),
    {
        let ghost pre = self@;
        let ghost d = data@;
        proof {
            lemma_index_of_key_props(pre.entries, d.name);
        }
        match self.find_index(data.name.as_str()) {
            Some(i) => {
                let mut entry = self.headers.remove(i);
                entry.1.push(data);
                self.headers.insert(i, entry);
                proof {
                    assert(hd_views(self.headers@[i as int].1@) =~= pre.entries[i as int].1.push(
                        d,
                    ));
                    assert(self@.entries =~= pre.entries.update(
                        i as int,
                        (pre.entries[i as int].0, pre.entries[i as int].1.push(d)),
                    ));
                    assert(self@.accept =~= pre.accept);
                }
            },
            None => {
                let name = data.name.clone();
                let line: Vec<HeaderData> = vec![data];
                self.headers.push((name, line));
                proof {
                    assert(hd_views(self.headers@.last().1@) =~= seq![d]);
                    assert(self@.entries =~= pre.entries.push((d.name, seq![d])));
                    assert(self@.accept =~= pre.accept);
                }
            },
        }
    }

    /// Appends a header built from a name and a text value.
    pub fn add_header(&mut self, name: String, value: String)
        requires
            spec_headers_wf(old(self)@),
        ensures
            final(self)@ == spec_add_header_data(
                old(self)@,
                SpecHeaderData {
                    name: name@,
                    value: Some(value@),
                    value_bytes: vstd::utf8::encode_utf8(value@),
                },
            ),
            spec_headers_wf(final(self)@),
    {
        let bytes = value.as_str().as_bytes_vec();
        let data = HeaderData::new(name, bytes, Some(value));
        self.add_header_data(data);
    }

    /// Replaces every line under the header's name with the one given,
    /// creating the entry if the name is new.
    pub fn replace_header_data(&mut self, data: HeaderData)
        requires
            spec_headers_wf(old(self)@),
        ensures
            final(self)@ == spec_replace_header_data(old(self)@, data@),
            spec_headers_wf(final(self)@),
    {
        let ghost pre = self@;
        let ghost d = data@;
        proof {
            lemma_index_of_key_props(pre.entries, d.name);
        }
        match self.find_index(data.name.as_str()) {
            Some(i) => {
                let entry = self.headers.remove(i);
                let line: Vec<HeaderData> = vec![data];
                self.headers.insert(i, (entry.0, line));
                proof {
                    assert(hd_views(self.headers@[i as int].1@) =~= seq![d]);
                    assert(self@.entries =~= pre.entries.update(
                        i as int,
                        (pre.entries[i as int].0, seq![d]),
                    ));
                    assert(self@.accept =~= pre.accept);
                }
            },
            None => {
                let name = data.name.clone();
                let line: Vec<HeaderData> = vec![data];
                self.headers.push((name, line));
                proof {
                    assert(hd_views(self.headers@.last().1@) =~= seq![d]);
                    assert(self@.entries =~= pre.entries.push((d.name, seq![d])));
                    assert(self@.accept =~= pre.accept);
                }
            },
        }
    }

    /// Replaces the header as `replace_header_data` does, from a name and a
    /// text value.
    pub fn replace_header(&mut self, name: String, value: String)
        requires
            spec_headers_wf(old(self)@),
        ensures
            final(self)@ == spec_replace_header_data(
                old(self)@,
                SpecHeaderData {
                    name: name@,
                    value: Some(value@),
                    value_bytes: vstd::utf8::encode_utf8(value@),
                },
            ),
            spec_headers_wf(final(self)@),
    {
        let bytes = value.as_str().as_bytes_vec();
        let data = HeaderData::new(name, bytes, Some(value));
        self.replace_header_data(data);
    }

    /// Replaces the header only if its name is already present; says whether
    /// it was.
    pub fn replace_header_data_if_exists(&mut self, data: HeaderData) -> (r: Result<(), ()>)
        requires
            spec_headers_wf(old(self)@),
        ensures
            r is Ok <==> spec_index_of_key(old(self)@.entries, data@.name) is Some,
            r is Ok ==> final(self)@ == spec_replace_header_data(old(self)@, data@),
            r is Err ==> final(self)@ == old(self)@,
            spec_headers_wf(final(self)@),
    {
        if self.find_index(data.name.as_str()).is_some() {
            self.replace_header_data(data);
            Ok(())
        } else {
            proof {
                assert(self@ =~~= old(self)@) by {
                    assert(self@.entries == old(self)@.entries);
                    assert(self@.accept == old(self)@.accept);
                }
            }
            Err(())
        }
    }

    /// Replaces the header from a name and a text value, only if the name is
    /// already present.
    pub fn replace_header_if_exists(&mut self, name: String, value: String) -> (r: Result<
        (),
        (),
    >)
        requires
            spec_headers_wf(old(self)@),
        ensures
            r is Ok <==> spec_index_of_key(old(self)@.entries, name@) is Some,
            r is Ok ==> final(self)@ == spec_replace_header_data(
                old(self)@,
                SpecHeaderData {
                    name: name@,
                    value: Some(value@),
                    value_bytes: vstd::utf8::encode_utf8(value@),
                },
            ),
            r is Err ==> final(self)@ == old(self)@,
            spec_headers_wf(final(self)@),
    {
        let bytes = value.as_str().as_bytes_vec();
        let data = HeaderData::new(name, bytes, Some(value));
        self.replace_header_data_if_exists(data)
    }

    /// Replaces one whole entry, unless its name is `accept` in any casing.
    fn replace_entry(&mut self, name: String, line: Vec<HeaderData>)
        requires
            spec_headers_wf(old(self)@),
            hd_views(line@).len() >= 1,
        ensures
            final(self)@ == spec_replace_entry(old(self)@, (name@, hd_views(line@))),
            spec_headers_wf(final(self)@),
    {
        let ghost pre = self@;
        let low = to_lower(name.as_str());
        if str_eq(low.as_str(), "accept") {
            proof {
                assert(self@ =~~= spec_replace_entry(pre, (name@, hd_views(line@)))) by {
                    assert(self@.entries == pre.entries);
                    assert(self@.accept == pre.accept);
                }
            }
            return ;
        }
        proof {
            lemma_index_of_key_props(pre.entries, name@);
        }
        match self.find_index(name.as_str()) {
            Some(i) => {
                let entry = self.headers.remove(i);
                self.headers.insert(i, (entry.0, line));
                proof {
                    assert(self@.entries =~= pre.entries.update(
                        i as int,
                        (pre.entries[i as int].0, hd_views(line@)),
                    ));
                    assert(self@.accept =~= pre.accept);
                }
            },
            None => {
                self.headers.push((name, line));
                proof {
                    assert(self@.entries =~= pre.entries.push(
                        (name@, hd_views(self.headers@.last().1@)),
                    ));
                    assert(self@.accept =~= pre.accept);
                }
            },
        }
    }

    /// Replaces every entry of the given store in this one, except that the
    /// Accept set and any entry named `accept` are kept as they are.
    pub fn replace_headers(&mut self, headers: Headers)
        requires
            spec_headers_wf(old(self)@),
            spec_headers_wf(headers@),
        ensures
            final(self)@ == spec_replace_entries(old(self)@, headers@.entries),
            spec_headers_wf(final(self)@),
    {
        let ghost others = headers@.entries;
        let ghost orig = self@;
        let mut rest = headers;
        let mut i: usize = 0;
        let n = rest.headers.len();
        proof {
            assert(others.take(0) =~= Seq::<(Seq<char>, Seq<SpecHeaderData>)>::empty());
        }
        while i < n
            invariant
                n == rest.headers@.len(),
                i <= n,
                others.len() == n,
                forall|j: int|
                    0 <= j < n ==> #[trigger] others[j] == (
                        rest.headers@[j].0@,
                        hd_views(rest.headers@[j].1@),
                    ),
                forall|j: int| 0 <= j < n ==> (#[trigger] others[j]).1.len() >= 1,
                self@ == spec_replace_entries(orig, others.take(i as int)),
                spec_headers_wf(self@),
            decreases n - i,
        {
            let entry = &rest.headers[i];
            let name = entry.0.clone();
            let mut line: Vec<HeaderData> = Vec::new();
            let m = entry.1.len();
            let mut k: usize = 0;
            while k < m
                invariant
                    m == rest.headers@[i as int].1@.len(),
                    i < rest.headers@.len(),
                    k <= m,
                    hd_views(line@) == hd_views(rest.headers@[i as int].1@).take(k as int),
                decreases m - k,
            {
                let ghost line_pre = line@;
                let d = rest.headers[i].1[k].duplicate();
                proof {
                    assert(d@ == hd_views(rest.headers@[i as int].1@)[k as int]);
                }
                line.push(d);
                k = k + 1;
                proof {
                    assert(line@ == line_pre.push(line@.last()));
                    assert(hd_views(line@) =~= hd_views(line_pre).push(line@.last()@));
                    assert(hd_views(line@) =~= hd_views(rest.headers@[i as int].1@).take(
                        k as int,
                    ));
                }
            }
            proof {
                assert(hd_views(line@) =~= hd_views(rest.headers@[i as int].1@));
                assert(others[i as int] == (
                    rest.headers@[i as int].0@,
                    hd_views(rest.headers@[i as int].1@),
                ));
                assert(others[i as int].1.len() >= 1);
                assert(others.take(i + 1).drop_last() =~= others.take(i as int));
            }
            self.replace_entry(name, line);
            i = i + 1;
        }
        proof {
            assert(others.take(n as int) =~= others);
        }
    }

    /// Replaces the Accept set with the ordered set built from the given
    /// entries, inserted in order.
    pub fn set_accept(&mut self, mimes: Vec<Mime>)
        ensures
            final(self)@.entries == old(self)@.entries,
            final(self)@.accept == accept_set_of(mime_views(mimes@)),
            spec_headers_wf(old(self)@) ==> spec_headers_wf(final(self)@),
    {
        let ghost ms = mime_views(mimes@);
        let mut acc: Vec<Mime> = Vec::new();
        let mut i: usize = 0;
        let n = mimes.len();
        proof {
            assert(ms.take(0) =~= Seq::<SpecMime>::empty());
            assert(mime_views(acc@) =~= Seq::<SpecMime>::empty());
        }
        while i < n
            invariant
                n == mimes@.len(),
                ms == mime_views(mimes@),
                i <= n,
                mime_views(acc@) == accept_set_of(ms.take(i as int)),
                accept_strictly_ordered(mime_views(acc@)),
            decreases n - i,
        {
            let m = mimes[i].duplicate();
            proof {
                assert(m@ == ms[i as int]);
                assert(ms.take(i + 1).drop_last() =~= ms.take(i as int));
                assert(ms.take(i + 1).last() == ms[i as int]);
            }
            insert_accept(&mut acc, m);
            i = i + 1;
        }
        proof {
            assert(ms.take(n as int) =~= ms);
        }
        let ghost pre = self@;
        self.accept = acc;
        proof {
            assert(self@.entries =~= pre.entries);
        }
    }

    /// Negotiates a response media type: the Accept entries are tried in
    /// quality order, and the first that selects one of the available types
    /// decides; no entries, no available types, or no selection yields
    /// nothing.
    pub fn content_negotiation(&self, availables: &[&str]) -> (r: Option<String>)
        ensures
            match r {
                Some(s) => spec_negotiate(self@.accept, avail_views(availables@)) == Some(s@),
                None => spec_negotiate(self@.accept, avail_views(availables@)) is None,
            },
    {
        let ghost av = avail_views(availables@);
        let ghost accept = self@.accept;
        let n = self.accept.len();
        if n == 0 || availables.len() == 0 {
            return None;
        }
        let mut i: usize = 0;
        proof {
            assert(accept.skip(0) =~= accept);
        }
        while i < n
            invariant
                n == self.accept@.len(),
                accept == self@.accept,
                av == avail_views(availables@),
                av.len() >= 1,
                i <= n,
                spec_negotiate_list(accept, av) == spec_negotiate_list(accept.skip(i as int), av),
            decreases n - i,
        {
            let m = &self.accept[i];
            proof {
                assert(m@ == accept[i as int]);
                assert(accept.skip(i as int)[0] == accept[i as int]);
            }
            if m.accept_all() {
                return Some(availables[0].to_owned());
            }
            let mt = m.get_mime_type();
            if contains_avail(availables, mt.as_str()) {
                return Some(mt);
            }
            if m.accept_all_media_types() {
                match find_avail_subtype(availables, m.subtype.as_str()) {
                    Some(j) => {
                        return Some(availables[j].to_owned());
                    },
                    None => {},
                }
            }
            if m.accept_all_subtypes() {
                match find_avail_type(availables, m.media_type.as_str()) {
                    Some(j) => {
                        return Some(availables[j].to_owned());
                    },
                    None => {},
                }
            }
            proof {
                assert(spec_try_mime(accept[i as int], av) is None);
                assert(accept.skip(i as int).drop_first() =~= accept.skip(i + 1));
            }
            i = i + 1;
        }
        proof {
            assert(accept.skip(n as int) =~= Seq::<SpecMime>::empty());
        }
        None
    }

    /// An exact copy of the store.
    pub fn duplicate(&self) -> (r: Headers)
        ensures
            r@ == self@,
    {
        let n = self.headers.len();
        let mut hs: Vec<(String, Vec<HeaderData>)> = Vec::new();
        let mut i: usize = 0;
        while i < n
            invariant
                n == self.headers@.len(),
                i <= n,
                hs@.len() == i,
                forall|j: int|
                    0 <= j < i ==> (#[trigger] hs@[j]).0@ == self.headers@[j].0@ && hd_views(
                        hs@[j].1@,
                    ) == hd_views(self.headers@[j].1@),
            decreases n - i,
        {
            let name = self.headers[i].0.clone();
            let m = self.headers[i].1.len();
            let mut line: Vec<HeaderData> = Vec::new();
            let mut k: usize = 0;
            while k < m
                invariant
                    m == self.headers@[i as int].1@.len(),
                    i < self.headers@.len(),
                    k <= m,
                    hd_views(line@) == hd_views(self.headers@[i as int].1@).take(k as int),
                decreases m - k,
            {
                let ghost line_pre = line@;
                let d = self.headers[i].1[k].duplicate();
                line.push(d);
                k = k + 1;
                proof {
                    assert(hd_views(line@) =~= hd_views(line_pre).push(line@.last()@));
                    assert(hd_views(line@) =~= hd_views(self.headers@[i as int].1@).take(
                        k as int,
                    ));
                }
            }
            proof {
                assert(hd_views(line@) =~= hd_views(self.headers@[i as int].1@));
            }
            hs.push((name, line));
            i = i + 1;
        }
        let na = self.accept.len();
        let mut acc: Vec<Mime> = Vec::new();
        let mut k: usize = 0;
        while k < na
            invariant
                na == self.accept@.len(),
                k <= na,
                mime_views(acc@) == mime_views(self.accept@).take(k as int),
            decreases na - k,
        {
            let ghost acc_pre = acc@;
            let d = self.accept[k].duplicate();
            acc.push(d);
            k = k + 1;
            proof {
                assert(mime_views(acc@) =~= mime_views(acc_pre).push(acc@.last()@));
                assert(mime_views(acc@) =~= mime_views(self.accept@).take(k as int));
            }
        }
        let r = Headers { headers: hs, accept: acc };
        proof {
            assert(r@.entries =~= self@.entries);
            assert(r@.accept =~= mime_views(self.accept@).take(na as int));
            assert(r@.accept =~= self@.accept);
        }
        r
    }

    /// An iterator over the first line of each entry, in entry order.
    pub fn iter(&self) -> (r: HeadersIterator)
        requires
            spec_headers_wf(self@),
        ensures
            r.pos == 0,
            hd_views(r.items@) == spec_first_lines(self@.entries),
    {
        let n = self.headers.len();
        let mut items: Vec<HeaderData> = Vec::new();
        let mut i: usize = 0;
        while i < n
            invariant
                n == self.headers@.len(),
                spec_headers_wf(self@),
                i <= n,
                hd_views(items@) == spec_first_lines(self@.entries).take(i as int),
            decreases n - i,
        {
            proof {
                assert(self@.entries[i as int].1.len() >= 1);
            }
            let ghost items_pre = items@;
            let d = self.headers[i].1[0].duplicate();
            items.push(d);
            i = i + 1;
            proof {
                assert(hd_views(items@) =~= hd_views(items_pre).push(items@.last()@));
                assert(hd_views(items@) =~= spec_first_lines(self@.entries).take(i as int));
            }
        }
        proof {
            assert(hd_views(items@) =~= spec_first_lines(self@.entries));
        }
        HeadersIterator { items, pos: 0 }
    }

    /// An iterator over the whole list of lines of each entry, in entry
    /// order.
    pub fn iter_all(&self) -> (r: HeadersIteratorAll)
        ensures
            r.pos == 0,
            line_views(r.items@) == spec_entry_lines(self@.entries),
    {
        let n = self.headers.len();
        let mut items: Vec<Vec<HeaderData>> = Vec::new();
        let mut i: usize = 0;
        while i < n
            invariant
                n == self.headers@.len(),
                i <= n,
                line_views(items@) == spec_entry_lines(self@.entries).take(i as int),
            decreases n - i,
        {
            let m = self.headers[i].1.len();
            let mut line: Vec<HeaderData> = Vec::new();
            let mut k: usize = 0;
            while k < m
                invariant
                    m == self.headers@[i as int].1@.len(),
                    i < self.headers@.len(),
                    k <= m,
                    hd_views(line@) == hd_views(self.headers@[i as int].1@).take(k as int),
                decreases m - k,
            {
                let ghost line_pre = line@;
                line.push(self.headers[i].1[k].duplicate());
                k = k + 1;
                proof {
                    assert(hd_views(line@) =~= hd_views(line_pre).push(line@.last()@));
                    assert(hd_views(line@) =~= hd_views(self.headers@[i as int].1@).take(
                        k as int,
                    ));
                }
            }
            proof {
                assert(hd_views(line@) =~= hd_views(self.headers@[i as int].1@));
            }
            let ghost items_pre = items@;
            items.push(line);
            i = i + 1;
            proof {
                assert(line_views(items@) =~= line_views(items_pre).push(hd_views(
                    items@.last()@,
                )));
                assert(line_views(items@) =~= spec_entry_lines(self@.entries).take(i as int));
            }
        }
        proof {
            assert(line_views(items@) =~= spec_entry_lines(self@.entries));
        }
        HeadersIteratorAll { items, pos: 0 }
    }
}

/// The first line of each entry, in order.
pub open spec fn spec_first_lines(
    entries: Seq<(Seq<char>, Seq<SpecHeaderData>)>,
) -> Seq<SpecHeaderData> {
    Seq::new(entries.len(), |i: int| entries[i].1[0])
}

/// The list of lines of each entry, in order.
pub open spec fn spec_entry_lines(entries: Seq<(Seq<char>, Seq<SpecHeaderData>)>) -> Seq<
    Seq<SpecHeaderData>,
> {
    Seq::new(entries.len(), |i: int| entries[i].1)
}

/// The views of a list of header-line lists.
pub open spec fn line_views(v: Seq<Vec<HeaderData>>) -> Seq<Seq<SpecHeaderData>> {
    Seq::new(v.len(), |i: int| hd_views(v[i]@))
}

/// Walks the first line of each header entry.
pub struct HeadersIterator {
    pub items: Vec<HeaderData>,
    pub pos: usize,
}

impl HeadersIterator {
    /// The next header line, if one is left.
    pub fn next(&mut self) -> (r: Option<HeaderData>)
        ensures
            final(self).items@ == old(self).items@,
            old(self).pos < old(self).items@.len() ==> final(self).pos == old(self).pos + 1 && (
            r matches Some(h) && h@ == old(self).items@[old(self).pos as int]@),
            old(self).pos >= old(self).items@.len() ==> final(self).pos == old(self).pos
                && r is None,
    {
        if self.pos < self.items.len() {
            let h = self.items[self.pos].duplicate();
            self.pos = self.pos + 1;
            Some(h)
        } else {
            None
        }
    }
}

/// Walks the whole line list of each header entry.
pub struct HeadersIteratorAll {
    pub items: Vec<Vec<HeaderData>>,
    pub pos: usize,
}

impl HeadersIteratorAll {
    /// The next entry's lines, if one is left.
    pub fn next(&mut self) -> (r: Option<Vec<HeaderData>>)
        ensures
            final(self).items@ == old(self).items@,
            old(self).pos < old(self).items@.len() ==> final(self).pos == old(self).pos + 1 && (
            r matches Some(l) && hd_views(l@) == hd_views(
                old(self).items@[old(self).pos as int]@,
            )),
            old(self).pos >= old(self).items@.len() ==> final(self).pos == old(self).pos
                && r is None,
    {
        if self.pos < self.items.len() {
            let m = self.items[self.pos].len();
            let ghost src = self.items@[self.pos as int]@;
            let mut line: Vec<HeaderData> = Vec::new();
            let mut k: usize = 0;
            while k < m
                invariant
                    m == src.len(),
                    src == self.items@[self.pos as int]@,
                    self.pos < self.items@.len(),
                    k <= m,
                    hd_views(line@) == hd_views(src).take(k as int),
                decreases m - k,
            {
                let ghost line_pre = line@;
                line.push(self.items[self.pos][k].duplicate());
                k = k + 1;
                proof {
                    assert(hd_views(line@) =~= hd_views(line_pre).push(line@.last()@));
                    assert(hd_views(line@) =~= hd_views(src).take(k as int));
                }
            }
            proof {
                assert(hd_views(line@) =~= hd_views(src));
            }
            self.pos = self.pos + 1;
            Some(line)
        } else {
            None
        }
    }
}

/// Whether one available type equals `t`.
fn contains_avail(availables: &[&str], t: &str) -> (r: bool)
    ensures
        r == (first_avail_eq(avail_views(availables@), t@) is Some),
{
    let n = availables.len();
    let ghost av = avail_views(availables@);
    let mut i: usize = 0;
    while i < n
        invariant
            n == availables@.len(),
            av == avail_views(availables@),
            i <= n,
            forall|j: int| 0 <= j < i ==> av[j] != t@,
        decreases n - i,
    {
        if str_eq(availables[i], t) {
            proof {
                lemma_first_avail_eq_witness(av, t@, i as int);
            }
            return true;
        }
        i = i + 1;
    }
    proof {
        lemma_first_avail_eq_none(av, t@);
    }
    false
}

proof fn lemma_first_avail_eq_witness(av: Seq<Seq<char>>, t: Seq<char>, i: int)
    requires
        0 <= i < av.len(),
        av[i] == t,
        forall|j: int| 0 <= j < i ==> av[j] != t,
    ensures
        first_avail_eq(av, t) == Some(i),
    decreases i,
{
    if i > 0 {
        assert(forall|j: int| 0 <= j < av.len() - 1 ==> av.drop_first()[j] == av[j + 1]);
        lemma_first_avail_eq_witness(av.drop_first(), t, i - 1);
    }
}

proof fn lemma_first_avail_eq_none(av: Seq<Seq<char>>, t: Seq<char>)
    requires
        forall|j: int| 0 <= j < av.len() ==> av[j] != t,
    ensures
        first_avail_eq(av, t) is None,
    decreases av.len(),
{
    if av.len() > 0 {
        assert(forall|j: int| 0 <= j < av.len() - 1 ==> av.drop_first()[j] == av[j + 1]);
        lemma_first_avail_eq_none(av.drop_first(), t);
    }
}

/// Whether `a` has the shape `type/subtype` with subtype `sub`.
fn avail_subtype_at(a: &str, sub: &str) -> (r: bool)
    ensures
        r == avail_subtype_matches(a@, sub@),
{
    let cs = crate::util::strutil::chars_of(a);
    match crate::util::strutil::find_char(&cs, '/', 0) {
        None => false,
        Some(i) => {
            if i < 1 {
                return false;
            }
            proof {
                crate::util::strutil::lemma_first_index_of_in_range(cs@, '/', 0);
            }
            let n = cs.len();
            let mut suf: Vec<char> = Vec::new();
            let mut j: usize = i + 1;
            while j < n
                invariant
                    n == cs@.len(),
                    i + 1 <= j <= n,
                    suf@ == cs@.skip(i + 1).take(j - (i + 1)),
                decreases n - j,
            {
                suf.push(cs[j]);
                j = j + 1;
                proof {
                    assert(suf@ =~= cs@.skip(i + 1).take(j - (i + 1)));
                }
            }
            proof {
                assert(suf@ =~= cs@.skip(i + 1));
            }
            crate::util::strutil::chars_eq_str(&suf, sub)
        },
    }
}

/// Whether `a` has the shape `type/subtype` with type `t` and a non-empty
/// subtype.
fn avail_type_at(a: &str, t: &str) -> (r: bool)
    ensures
        r == avail_type_matches(a@, t@),
{
    let cs = crate::util::strutil::chars_of(a);
    match crate::util::strutil::find_char(&cs, '/', 0) {
        None => false,
        Some(i) => {
            proof {
                crate::util::strutil::lemma_first_index_of_in_range(cs@, '/', 0);
            }
            let n = cs.len();
            if n - (i + 1) < 1 {
                return false;
            }
            let mut pre: Vec<char> = Vec::new();
            let mut j: usize = 0;
            while j < i
                invariant
                    i < cs@.len(),
                    j <= i,
                    pre@ == cs@.take(i as int).take(j as int),
                decreases i - j,
            {
                pre.push(cs[j]);
                j = j + 1;
                proof {
                    assert(pre@ =~= cs@.take(i as int).take(j as int));
                }
            }
            proof {
                assert(pre@ =~= cs@.take(i as int));
            }
            crate::util::strutil::chars_eq_str(&pre, t)
        },
    }
}

/// Index of the first available type whose subtype is `sub`.
fn find_avail_subtype(availables: &[&str], sub: &str) -> (r: Option<usize>)
    ensures
        first_avail_subtype(avail_views(availables@), sub@) == match r {
            Some(i) => Some(i as int),
            None => None::<int>,
        },
        r matches Some(i) ==> i < availables@.len(),
{
    let n = availables.len();
    let ghost av = avail_views(availables@);
    let mut i: usize = 0;
    while i < n
        invariant
            n == availables@.len(),
            av == avail_views(availables@),
            i <= n,
            forall|j: int| 0 <= j < i ==> !avail_subtype_matches(#[trigger] av[j], sub@),
        decreases n - i,
    {
        if avail_subtype_at(availables[i], sub) {
            proof {
                lemma_first_avail_subtype_witness(av, sub@, i as int);
            }
            return Some(i);
        }
        i = i + 1;
    }
    proof {
        lemma_first_avail_subtype_none(av, sub@);
    }
    None
}

proof fn lemma_first_avail_subtype_witness(av: Seq<Seq<char>>, s: Seq<char>, i: int)
    requires
        0 <= i < av.len(),
        avail_subtype_matches(av[i], s),
        forall|j: int| 0 <= j < i ==> !avail_subtype_matches(#[trigger] av[j], s),
    ensures
        first_avail_subtype(av, s) == Some(i),
    decreases i,
{
    if i > 0 {
        assert(forall|j: int| 0 <= j < av.len() - 1 ==> av.drop_first()[j] == av[j + 1]);
        lemma_first_avail_subtype_witness(av.drop_first(), s, i - 1);
    }
}

proof fn lemma_first_avail_subtype_none(av: Seq<Seq<char>>, s: Seq<char>)
    requires
        forall|j: int| 0 <= j < av.len() ==> !avail_subtype_matches(#[trigger] av[j], s),
    ensures
        first_avail_subtype(av, s) is None,
    decreases av.len(),
{
    if av.len() > 0 {
        assert(forall|j: int| 0 <= j < av.len() - 1 ==> av.drop_first()[j] == av[j + 1]);
        lemma_first_avail_subtype_none(av.drop_first(), s);
    }
}

/// Index of the first available type whose type is `t`.
fn find_avail_type(availables: &[&str], t: &str) -> (r: Option<usize>)
    ensures
        first_avail_type(avail_views(availables@), t@) == match r {
            Some(i) => Some(i as int),
            None => None::<int>,
        },
        r matches Some(i) ==> i < availables@.len(),
{
    let n = availables.len();
    let ghost av = avail_views(availables@);
    let mut i: usize = 0;
    while i < n
        invariant
            n == availables@.len(),
            av == avail_views(availables@),
            i <= n,
            forall|j: int| 0 <= j < i ==> !avail_type_matches(#[trigger] av[j], t@),
        decreases n - i,
    {
        if avail_type_at(availables[i], t) {
            proof {
                lemma_first_avail_type_witness(av, t@, i as int);
            }
            return Some(i);
        }
        i = i + 1;
    }
    proof {
        lemma_first_avail_type_none(av, t@);
    }
    None
}

proof fn lemma_first_avail_type_witness(av: Seq<Seq<char>>, t: Seq<char>, i: int)
    requires
        0 <= i < av.len(),
        avail_type_matches(av[i], t),
        forall|j: int| 0 <= j < i ==> !avail_type_matches(#[trigger] av[j], t),
    ensures
        first_avail_type(av, t) == Some(i),
    decreases i,
{
    if i > 0 {
        assert(forall|j: int| 0 <= j < av.len() - 1 ==> av.drop_first()[j] == av[j + 1]);
        lemma_first_avail_type_witness(av.drop_first(), t, i - 1);
    }
}

proof fn lemma_first_avail_type_none(av: Seq<Seq<char>>, t: Seq<char>)
    requires
        forall|j: int| 0 <= j < av.len() ==> !avail_type_matches(#[trigger] av[j], t),
    ensures
        first_avail_type(av, t) is None,
    decreases av.len(),
{
    if av.len() > 0 {
        assert(forall|j: int| 0 <= j < av.len() - 1 ==> av.drop_first()[j] == av[j + 1]);
        lemma_first_avail_type_none(av.drop_first(), t);
    }
}

/// `accept_before` orders ranks transitively.
proof fn lemma_before_trans(a: SpecMime, b: SpecMime, c: SpecMime)
    requires
        accept_before(a, b),
        accept_before(b, c),
    ensures
        accept_before(a, c),
{
}

/// Inserts one entry into an ordered Accept set, keeping the order and
/// dropping the entry when one of the same rank is present.
fn insert_accept(acc: &mut Vec<Mime>, m: Mime)
    requires
        accept_strictly_ordered(mime_views(old(acc)@)),
    ensures
        mime_views(final(acc)@) == accept_insert(mime_views(old(acc)@), m@),
        accept_strictly_ordered(mime_views(final(acc)@)),
{
    let ghost s = mime_views(acc@);
    let n = acc.len();
    let mut j: usize = 0;
    while j < n && !m.precedes(&acc[j]) && !m.same_rank(&acc[j])
        invariant
            n == acc@.len(),
            s == mime_views(acc@),
            accept_strictly_ordered(s),
            j <= n,
            forall|k: int|
                0 <= k < j ==> !accept_before(m@, #[trigger] s[k]) && !accept_same_rank(m@, s[k]),
        decreases n - j,
    {
        j = j + 1;
    }
    proof {
        lemma_accept_insert_skip(s, m@, j as int);
        assert forall|k: int| 0 <= k < j implies accept_before(#[trigger] s[k], m@) by {
            assert(!accept_before(m@, s[k]) && !accept_same_rank(m@, s[k]));
        }
    }
    if j == n {
        proof {
            assert(s.skip(n as int) =~= Seq::<SpecMime>::empty());
        }
        acc.push(m);
        proof {
            assert(mime_views(acc@) =~= s.take(n as int) + accept_insert(
                Seq::<SpecMime>::empty(),
                m@,
            ));
        }
        return ;
    }
    if m.same_rank(&acc[j]) {
        proof {
            assert(s.skip(j as int)[0] == s[j as int]);
            assert(accept_insert(s.skip(j as int), m@) == s.skip(j as int)) by {
                assert(!accept_before(m@, s.skip(j as int)[0]));
            }
            assert(mime_views(acc@) =~= s.take(j as int) + s.skip(j as int));
        }
        return ;
    }
    // m precedes acc[j]: it stands exactly there.
    proof {
        assert(s.skip(j as int)[0] == s[j as int]);
        assert(accept_before(m@, s.skip(j as int)[0]));
    }
    acc.insert(j, m);
    proof {
        assert(mime_views(acc@) =~= s.take(j as int) + (seq![m@] + s.skip(j as int)));
        assert forall|a: int, b: int|
            0 <= a < b < mime_views(acc@).len() implies accept_before(
            #[trigger] mime_views(acc@)[a],
            #[trigger] mime_views(acc@)[b],
        ) by {
            let v = mime_views(acc@);
            if b == j {
                assert(accept_before(s[a], m@) && accept_before(m@, s[j as int]));
            } else if a == j {
                if b == j + 1 {
                    assert(v[b] == s[j as int]);
                } else {
                    assert(accept_before(s[j as int], s[b - 1]));
                    lemma_before_trans(m@, s[j as int], v[b]);
                }
            } else if a < j && b > j {
                assert(accept_before(s[a], s[b - 1]));
            }
        }
    }
}

/// Peeling an ordered prefix that the new entry does not displace: insertion
/// happens entirely in the suffix.
proof fn lemma_accept_insert_skip(s: Seq<SpecMime>, m: SpecMime, j: int)
    requires
        0 <= j <= s.len(),
        forall|k: int|
            0 <= k < j ==> !accept_before(m, #[trigger] s[k]) && !accept_same_rank(m, s[k]),
    ensures
        accept_insert(s, m) == s.take(j) + accept_insert(s.skip(j), m),
    decreases j,
{
    if j == 0 {
        assert(s.skip(0) =~= s);
        assert(s.take(0) + accept_insert(s, m) =~= accept_insert(s, m));
    } else {
        assert(!accept_before(m, s[0]) && !accept_same_rank(m, s[0]));
        lemma_accept_insert_skip(s.drop_first(), m, j - 1);
        assert(s.drop_first().take(j - 1) =~= s.take(j).drop_first());
        assert(s.drop_first().skip(j - 1) =~= s.skip(j));
        assert(accept_insert(s, m) == seq![s[0]] + accept_insert(s.drop_first(), m));
        assert(seq![s[0]] + (s.drop_first().take(j - 1) + accept_insert(s.skip(j), m)) =~= s.take(
            j,
        ) + accept_insert(s.skip(j), m));
    }
}

} // verus!
