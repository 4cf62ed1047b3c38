//! Assembling a multipart body from its parts. A part that declares a
//! content type outside `text/*` is a file; every other part is data,
//! parsed as JSON where its text is JSON, decoded by its content type's
//! strategy otherwise, and merged into one object under the field's name.
//! A part that cannot be read or decoded is dropped, never fatal.

use vstd::prelude::*;

use crate::body::body::{BodyData, FileData, SpecFileData};
use crate::io::header_data::clone_bytes;
use crate::parser::value::{
    field_views, json_decode_str, json_parse_bytes, render_value, spec_render_value, JsonLeaf,
    JsonValue, SpecJson, SpecJsonLeaf,
};
use crate::util::keymap::{lemma_index_of_key_props, spec_index_of_key};
use crate::util::strutil::{first_index_of, str_eq, find_char, chars_of, lower_seq, to_lower,
    string_from_chars, trim_seq};
use crate::ContentTypeStrategy;

verus! {

/// The mathematical content of one multipart part.
pub struct SpecPartData {
    pub name: Option<Seq<char>>,
    pub filename: Option<Seq<char>>,
    pub content_type: Option<Seq<char>>,
    pub bytes: Option<Seq<u8>>,
    pub text: Option<Seq<char>>,
}

/// One part of a multipart body, as the host read it off the stream: the
/// field name, the file name, the declared content type, and the payload —
/// raw bytes for a file part, text for a data part; an unreadable payload
/// is absent.
pub struct PartData {
    pub name: Option<String>,
    pub filename: Option<String>,
    pub content_type: Option<String>,
    pub bytes: Option<Vec<u8>>,
    pub text: Option<String>,
}

impl View for PartData {
    type V = SpecPartData;

    open spec fn view(&self) -> SpecPartData {
        SpecPartData {
            name: match &self.name {
                Some(v) => Some(v@),
                None => None,
            },
            filename: match &self.filename {
                Some(v) => Some(v@),
                None => None,
            },
            content_type: match &self.content_type {
                Some(v) => Some(v@),
                None => None,
            },
            bytes: match &self.bytes {
                Some(v) => Some(v@),
                None => None,
            },
            text: match &self.text {
                Some(v) => Some(v@),
                None => None,
            },
        }
    }
}

/// The type half of a declared content type: everything before the first
/// slash, or the whole value without one.
pub open spec fn spec_ct_type(ct: Seq<char>) -> Seq<char> {
    match first_index_of(ct, '/', 0) {
        Some(i) => ct.take(i),
        None => ct,
    }
}

/// The file heuristic: a part is a file exactly when it declares a content
/// type whose type half is not `text`.
pub open spec fn spec_is_file_part(ct: Option<Seq<char>>) -> bool {
    match ct {
        Some(c) => spec_ct_type(c) != "text"@,
        None => false,
    }
}

/// Whether a part is classified as a file.
pub fn is_file_part(content_type: &Option<String>) -> (r: bool)
    ensures
        r == spec_is_file_part(
            match content_type {
                Some(c) => Some(c@),
                None => None,
            },
        ),
{
    match content_type {
        Some(c) => {
            let cs = chars_of(c.as_str());
            match find_char(&cs, '/', 0) {
                Some(i) => {
                    proof {
                        crate::util::strutil::lemma_first_index_of_in_range(cs@, '/', 0);
                    }
                    let mut t: Vec<char> = Vec::new();
                    let mut j: usize = 0;
                    while j < i
                        invariant
                            i < cs@.len(),
                            j <= i,
                            t@ == cs@.take(i as int).take(j as int),
                        decreases i - j,
                    {
                        t.push(cs[j]);
                        j = j + 1;
                        proof {
                            assert(t@ =~= cs@.take(i as int).take(j as int));
                        }
                    }
                    proof {
                        assert(t@ =~= cs@.take(i as int));
                    }
                    !crate::util::strutil::chars_eq_str(&t, "text")
                },
                None => !str_eq(c.as_str(), "text"),
            }
        },
        None => false,
    }
}

/// The decode key of a data part: `type/subtype` of the declared content
/// type, lower-cased with parameters stripped, where that names a decodable
/// type; plain text otherwise.
pub open spec fn spec_part_content_type(ct: Option<Seq<char>>) -> Seq<char> {
    match ct {
        None => "text/plain"@,
        Some(c) => match first_index_of(c, '/', 0) {
            None => "text/plain"@,
            Some(i) => {
                let t = lower_seq(c.take(i));
                let after = c.skip(i + 1);
                let sub = match first_index_of(after, ';', 0) {
                    Some(k) => after.take(k),
                    None => after,
                };
                let full = t + "/"@ + lower_seq(trim_seq(sub));
                if full == "text/plain"@ || full == "application/json"@ {
                    full
                } else {
                    "text/plain"@
                }
            },
        },
    }
}

/// The decode key of a data part.
pub fn part_content_type(content_type: &Option<String>) -> (r: String)
    ensures
        r@ == spec_part_content_type(
            match content_type {
                Some(c) => Some(c@),
                None => None,
            },
        ),
{
    match content_type {
        None => String::from_str("text/plain"),
        Some(c) => {
            let cs = chars_of(c.as_str());
            match find_char(&cs, '/', 0) {
                None => String::from_str("text/plain"),
                Some(i) => {
                    proof {
                        crate::util::strutil::lemma_first_index_of_in_range(cs@, '/', 0);
                    }
                    let n = cs.len();
                    let mut t: Vec<char> = Vec::new();
                    let mut j: usize = 0;
                    while j < i
                        invariant
                            i < cs@.len(),
                            j <= i,
                            t@ == cs@.take(i as int).take(j as int),
                        decreases i - j,
                    {
                        t.push(cs[j]);
                        j = j + 1;
                        proof {
                            assert(t@ =~= cs@.take(i as int).take(j as int));
                        }
                    }
                    proof {
                        assert(t@ =~= cs@.take(i as int));
                    }
                    let mut after: Vec<char> = Vec::new();
                    let mut k: usize = i + 1;
                    while k < n
                        invariant
                            n == cs@.len(),
                            i + 1 <= k <= n,
                            after@ == cs@.skip(i + 1).take(k - (i + 1)),
                        decreases n - k,
                    {
                        after.push(cs[k]);
                        k = k + 1;
                        proof {
                            assert(after@ =~= cs@.skip(i + 1).take(k - (i + 1)));
                        }
                    }
                    proof {
                        assert(after@ =~= cs@.skip(i + 1));
                    }
                    let sub: Vec<char> = match find_char(&after, ';', 0) {
                        Some(p) => {
                            proof {
                                crate::util::strutil::lemma_first_index_of_in_range(
                                    after@,
                                    ';',
                                    0,
                                );
                            }
                            let mut s: Vec<char> = Vec::new();
                            let mut q: usize = 0;
                            while q < p
                                invariant
                                    p < after@.len(),
                                    q <= p,
                                    s@ == after@.take(p as int).take(q as int),
                                decreases p - q,
                            {
                                s.push(after[q]);
                                q = q + 1;
                                proof {
                                    assert(s@ =~= after@.take(p as int).take(q as int));
                                }
                            }
                            proof {
                                assert(s@ =~= after@.take(p as int));
                            }
                            s
                        },
                        None => after,
                    };
                    let sub_trim = crate::util::strutil::trim_chars(&sub);
                    let full = to_lower(string_from_chars(&t).as_str()).concat("/").concat(
                        to_lower(string_from_chars(&sub_trim).as_str()).as_str(),
                    );
                    if str_eq(full.as_str(), "text/plain") || str_eq(
                        full.as_str(),
                        "application/json",
                    ) {
                        full
                    } else {
                        String::from_str("text/plain")
                    }
                },
            }
        },
    }
}

/// A decoded value as one object field.
pub open spec fn spec_leaf_of(v: SpecJson) -> SpecJsonLeaf {
    match v {
        SpecJson::Null => SpecJsonLeaf::Null,
        SpecJson::Str(s) => SpecJsonLeaf::Str(s),
        SpecJson::Raw(t) => SpecJsonLeaf::Raw(t),
        SpecJson::Obj(_) => SpecJsonLeaf::Raw(spec_render_value(v)),
    }
}

/// A decoded value as one object field.
pub fn value_to_leaf(v: JsonValue) -> (r: JsonLeaf)
    ensures
        r@ == spec_leaf_of(v@),
{
    match v {
        JsonValue::Null => JsonLeaf::Null,
        JsonValue::Str(s) => JsonLeaf::Str(s),
        JsonValue::Raw(t) => JsonLeaf::Raw(t),
        JsonValue::Obj(_) => {
            let text = render_value(&v);
            JsonLeaf::Raw(text)
        },
    }
}

/// Setting one object field: a known name is overwritten in place, a new
/// one appended.
pub open spec fn spec_obj_set(
    fs: Seq<(Seq<char>, SpecJsonLeaf)>,
    k: Seq<char>,
    l: SpecJsonLeaf,
) -> Seq<(Seq<char>, SpecJsonLeaf)> {
    match spec_index_of_key(fs, k) {
        None => fs.push((k, l)),
        Some(i) => fs.update(i, (fs[i].0, l)),
    }
}

/// The multipart assembly state: the object fields so far and the files so
/// far.
pub struct SpecMultipartState {
    pub fields: Seq<(Seq<char>, SpecJsonLeaf)>,
    pub files: Seq<SpecFileData>,
}

/// Processing one part. A file part without a name or with an unreadable
/// payload is dropped; one with both becomes a file entry, its file name
/// defaulting to `blank`. A data part without a name or with unreadable
/// text is dropped; otherwise its text is parsed as JSON, falling back to
/// its content type's decode strategy, and a value that neither yields is
/// dropped.
pub open spec fn spec_process_part(
    st: SpecMultipartState,
    p: SpecPartData,
    reg: Seq<(Seq<char>, crate::Codec)>,
) -> SpecMultipartState {
    if spec_is_file_part(p.content_type) {
        match (p.name, p.bytes) {
            (Some(nm), Some(bs)) => SpecMultipartState {
                fields: st.fields,
                files: st.files.push(
                    SpecFileData {
                        name: nm,
                        filename: match p.filename {
                            Some(f) => f,
                            None => "blank"@,
                        },
                        bytes: bs,
                        content_type: p.content_type->Some_0,
                    },
                ),
            },
            _ => st,
        }
    } else {
        match (p.name, p.text) {
            (Some(nm), Some(tx)) => {
                match json_parse_bytes(vstd::utf8::encode_utf8(tx)) {
                    Some(v) => SpecMultipartState {
                        fields: spec_obj_set(st.fields, nm, spec_leaf_of(v)),
                        files: st.files,
                    },
                    None => {
                        let ct = spec_part_content_type(p.content_type);
                        match crate::util::keymap::spec_lookup(reg, lower_seq(ct)) {
                            None => st,
                            Some(codec) => match crate::spec_decode(
                                codec,
                                vstd::utf8::encode_utf8(tx),
                            ) {
                                Some(v) => SpecMultipartState {
                                    fields: spec_obj_set(st.fields, nm, spec_leaf_of(v)),
                                    files: st.files,
                                },
                                None => st,
                            },
                        }
                    },
                }
            },
            _ => st,
        }
    }
}

/// Processing a whole part list, in order, from the empty state.
pub open spec fn spec_multipart_state(
    parts: Seq<SpecPartData>,
    reg: Seq<(Seq<char>, crate::Codec)>,
) -> SpecMultipartState
    decreases parts.len(),
{
    if parts.len() == 0 {
        SpecMultipartState { fields: Seq::empty(), files: Seq::empty() }
    } else {
        spec_process_part(spec_multipart_state(parts.drop_last(), reg), parts.last(), reg)
    }
}

/// The views of a part list.
pub open spec fn part_views(l: Seq<PartData>) -> Seq<SpecPartData> {
    Seq::new(l.len(), |i: int| l[i]@)
}

/// Assembles a multipart body: data fields merge into one object, file
/// fields become file entries, and the body value is always that object,
/// even when empty.
pub fn get_body_from_multipart(parts: Vec<PartData>, strategies: &ContentTypeStrategy) -> (r:
    BodyData)
    ensures
        ({
            let st = spec_multipart_state(part_views(parts@), strategies.view());
            r@.value == Some(SpecJson::Obj(st.fields)) && r@.files == st.files
        }),
{
    let ghost pv = part_views(parts@);
    let mut fields: Vec<(String, JsonLeaf)> = Vec::new();
    let mut files: Vec<FileData> = Vec::new();
    let n = parts.len();
    let mut i: usize = 0;
    proof {
        assert(pv.take(0) =~= Seq::<SpecPartData>::empty());
        assert(field_views(fields@) =~= spec_multipart_state(pv.take(0), strategies.view()).fields);
        assert(crate::body::body::fd_views(files@) =~= spec_multipart_state(
            pv.take(0),
            strategies.view(),
        ).files);
    }
    while i < n
        invariant
            n == parts@.len(),
            pv == part_views(parts@),
            i <= n,
            field_views(fields@) == spec_multipart_state(pv.take(i as int), strategies.view()).fields,
            crate::body::body::fd_views(files@) == spec_multipart_state(
                pv.take(i as int),
                strategies.view(),
            ).files,
        decreases n - i,
    {
        proof {
            assert(pv.take(i + 1).drop_last() =~= pv.take(i as int));
            assert(pv.take(i + 1).last() == pv[i as int]);
            assert(pv[i as int] == parts@[i as int]@);
        }
        let part = &parts[i];
        if is_file_part(&part.content_type) {
            match (&part.name, &part.bytes) {
                (Some(nm), Some(bs)) => {
                    let filename = match &part.filename {
                        Some(f) => f.clone(),
                        None => String::from_str("blank"),
                    };
                    let ct = match &part.content_type {
                        Some(c) => c.clone(),
                        None => String::new(),
                    };
                    let f = FileData::new(nm.clone(), filename, clone_bytes(bs), ct);
                    let ghost files_pre = files@;
                    files.push(f);
                    proof {
                        assert(crate::body::body::fd_views(files@)
                            =~= crate::body::body::fd_views(files_pre).push(files@.last()@));
                        assert(crate::body::body::fd_views(files@) =~= spec_multipart_state(
                            pv.take(i + 1),
                            strategies.view(),
                        ).files);
                    }
                },
                _ => {},
            }
        } else {
            match (&part.name, &part.text) {
                (Some(nm), Some(tx)) => {
                    let decoded: Option<JsonValue> = match json_decode_str(tx.as_str()) {
                        Some(v) => Some(v),
                        None => {
                            let ct = part_content_type(&part.content_type);
                            match strategies.exec(ct.as_str(), &tx.as_str().as_bytes_vec()) {
                                Ok(inner) => match inner {
                                    Ok(v) => Some(v),
                                    Err(_) => None,
                                },
                                Err(_) => None,
                            }
                        },
                    };
                    match decoded {
                        Some(v) => {
                            let leaf = value_to_leaf(v);
                            obj_set(&mut fields, nm.clone(), leaf);
                        },
                        None => {},
                    }
                },
                _ => {},
            }
        }
        i = i + 1;
        proof {
            assert(field_views(fields@) =~= spec_multipart_state(
                pv.take(i as int),
                strategies.view(),
            ).fields);
            assert(crate::body::body::fd_views(files@) =~= spec_multipart_state(
                pv.take(i as int),
                strategies.view(),
            ).files);
        }
    }
    proof {
        assert(pv.take(n as int) =~= pv);
    }
    BodyData { value: Some(JsonValue::Obj(fields)), files }
}

/// Sets one object field, overwriting a known name in place.
fn obj_set(fields: &mut Vec<(String, JsonLeaf)>, name: String, leaf: JsonLeaf)
    ensures
        field_views(final(fields)@) == spec_obj_set(field_views(old(fields)@), name@, leaf@),
{
    let ghost pre = field_views(fields@);
    proof {
        lemma_index_of_key_props(pre, name@);
    }
    let n = fields.len();
    let mut i: usize = 0;
    while i < n
        invariant
            n == fields@.len(),
            pre == field_views(fields@),
            fields@ == old(fields)@,
            i <= n,
            forall|j: int| 0 <= j < i ==> (#[trigger] pre[j]).0 != name@,
        decreases n - i,
    {
        proof {
            assert(pre[i as int].0 == fields@[i as int].0@);
        }
        if str_eq(fields[i].0.as_str(), name.as_str()) {
            proof {
                crate::util::keymap::lemma_index_of_key_witness(pre, name@, i as int);
            }
            let entry = fields.remove(i);
            fields.insert(i, (entry.0, leaf));
            proof {
                assert(fields@[i as int].1 == leaf);
                assert(field_views(fields@) =~= pre.update(
                    i as int,
                    (pre[i as int].0, leaf@),
                ));
                assert(pre == field_views(old(fields)@));
                assert(spec_index_of_key(pre, name@) == Some(i as int));
                assert(spec_obj_set(pre, name@, leaf@) == pre.update(
                    i as int,
                    (pre[i as int].0, leaf@),
                ));
            }
            return ;
        }
        i = i + 1;
    }
    proof {
        crate::util::keymap::lemma_index_of_key_none(pre, name@);
    }
    fields.push((name, leaf));
    proof {
        assert(field_views(fields@) =~= pre.push(
            (fields@.last().0@, fields@.last().1@),
        ));
    }
}

} // verus!
