//! The structured body value: what decoded payloads and response bodies are
//! made of. A value is null, a string, an object assembled field by field,
//! or any other JSON value kept as its canonical text from the decoder.
//!
//! Rendering a value back to JSON text is verified here; only parsing goes
//! through the JSON library, behind named results.

use vstd::prelude::*;

use crate::util::strutil::{chars_of, string_from_chars};

verus! {

/// One field of an assembled object: the shapes a decoded form field can
/// take.
#[derive(Debug, Clone, PartialEq, Eq)]
pub enum JsonLeaf {
    Null,
    Str(String),
    Raw(String),
}

/// A structured body value.
#[derive(Debug, Clone, PartialEq, Eq)]
pub enum JsonValue {
    Null,
    Str(String),
    Raw(String),
    Obj(Vec<(String, JsonLeaf)>),
}

/// The mathematical content of a field value.
pub enum SpecJsonLeaf {
    Null,
    Str(Seq<char>),
    Raw(Seq<char>),
}

/// The mathematical content of a body value.
pub enum SpecJson {
    Null,
    Str(Seq<char>),
    Raw(Seq<char>),
    Obj(Seq<(Seq<char>, SpecJsonLeaf)>),
}

impl View for JsonLeaf {
    type V = SpecJsonLeaf;

    open spec fn view(&self) -> SpecJsonLeaf {
        match self {
            JsonLeaf::Null => SpecJsonLeaf::Null,
            JsonLeaf::Str(s) => SpecJsonLeaf::Str(s@),
            JsonLeaf::Raw(t) => SpecJsonLeaf::Raw(t@),
        }
    }
}

/// The views of an object's fields.
pub open spec fn field_views(fs: Seq<(String, JsonLeaf)>) -> Seq<(Seq<char>, SpecJsonLeaf)> {
    Seq::new(fs.len(), |i: int| (fs[i].0@, fs[i].1@))
}

impl View for JsonValue {
    type V = SpecJson;

    open spec fn view(&self) -> SpecJson {
        match self {
            JsonValue::Null => SpecJson::Null,
            JsonValue::Str(s) => SpecJson::Str(s@),
            JsonValue::Raw(t) => SpecJson::Raw(t@),
            JsonValue::Obj(fs) => SpecJson::Obj(field_views(fs@)),
        }
    }
}

/// What parsing JSON bytes returns: nothing for text that is not JSON; null
/// and strings as themselves; any other value as its canonical text. The
/// result depends on the bytes alone.
pub uninterp spec fn json_parse_bytes(b: Seq<u8>) -> Option<SpecJson>;

/// What looking up one member of a JSON object held as canonical text
/// returns, shallowly classified the same way. The result depends on the
/// text and the member name alone.
pub uninterp spec fn json_field_of(t: Seq<char>, k: Seq<char>) -> Option<SpecJson>;

/// Relies on `serde_json::from_slice` for `serde_json::Value` and on
/// `Value::to_string`: whether bytes parse, and the parsed value, depend on
/// the bytes alone; `to_string` is the value's canonical text.
#[verifier::external_body]
pub(crate) fn json_decode_bytes(bytes: &[u8]) -> (r: Option<JsonValue>)
    ensures
        match r {
            Some(v) => json_parse_bytes(bytes@) == Some(v@),
            None => json_parse_bytes(bytes@) is None,
        },
{
    match serde_json::from_slice::<serde_json::Value>(bytes) {
        Ok(serde_json::Value::Null) => Some(JsonValue::Null),
        Ok(serde_json::Value::String(s)) => Some(JsonValue::Str(s)),
        Ok(v) => Some(JsonValue::Raw(v.to_string())),
        Err(_) => None,
    }
}

/// Decodes JSON from text: the same parse on the text's bytes.
pub(crate) fn json_decode_str(s: &str) -> (r: Option<JsonValue>)
    ensures
        match r {
            Some(v) => json_parse_bytes(vstd::utf8::encode_utf8(s@)) == Some(v@),
            None => json_parse_bytes(vstd::utf8::encode_utf8(s@)) is None,
        },
{
    json_decode_bytes(s.as_bytes())
}

/// Relies on `serde_json::from_str` for `serde_json::Value`, `Value::get`
/// and `Value::to_string`: the named member of the parsed object, shallowly
/// classified, depends on the text and the name alone.
#[verifier::external_body]
pub(crate) fn json_raw_field(text: &str, name: &str) -> (r: Option<JsonValue>)
    ensures
        match r {
            Some(v) => json_field_of(text@, name@) == Some(v@),
            None => json_field_of(text@, name@) is None,
        },
{
    match serde_json::from_str::<serde_json::Value>(text) {
        Ok(v) => match v.get(name) {
            Some(serde_json::Value::Null) => Some(JsonValue::Null),
            Some(serde_json::Value::String(s)) => Some(JsonValue::Str(s.clone())),
            Some(f) => Some(JsonValue::Raw(f.to_string())),
            None => None,
        },
        Err(_) => None,
    }
}

/// The hexadecimal digit for a value below sixteen, in lower case.
pub open spec fn spec_hex_char(n: int) -> char {
    if n == 0 {
        '0'
    } else if n == 1 {
        '1'
    } else if n == 2 {
        '2'
    } else if n == 3 {
        '3'
    } else if n == 4 {
        '4'
    } else if n == 5 {
        '5'
    } else if n == 6 {
        '6'
    } else if n == 7 {
        '7'
    } else if n == 8 {
        '8'
    } else if n == 9 {
        '9'
    } else if n == 10 {
        'a'
    } else if n == 11 {
        'b'
    } else if n == 12 {
        'c'
    } else if n == 13 {
        'd'
    } else if n == 14 {
        'e'
    } else {
        'f'
    }
}

/// How one character is written inside a JSON string literal.
pub open spec fn spec_escape_char(c: char) -> Seq<char> {
    if c == '"' {
        seq!['\\', '"']
    } else if c == '\\' {
        seq!['\\', '\\']
    } else if c == '\u{8}' {
        seq!['\\', 'b']
    } else if c == '\u{c}' {
        seq!['\\', 'f']
    } else if c == '\n' {
        seq!['\\', 'n']
    } else if c == '\r' {
        seq!['\\', 'r']
    } else if c == '\t' {
        seq!['\\', 't']
    } else if (c as u32) < 32 {
        seq!['\\', 'u', '0', '0', spec_hex_char((c as u32) as int / 16), spec_hex_char(
            (c as u32) as int % 16,
        )]
    } else {
        seq![c]
    }
}

/// A string's characters written inside a JSON string literal.
pub open spec fn spec_escape_seq(s: Seq<char>) -> Seq<char>
    decreases s.len(),
{
    if s.len() == 0 {
        Seq::empty()
    } else {
        spec_escape_seq(s.drop_last()) + spec_escape_char(s.last())
    }
}

/// A JSON string literal: quotes around the escaped characters.
pub open spec fn spec_quote(s: Seq<char>) -> Seq<char> {
    seq!['"'] + spec_escape_seq(s) + seq!['"']
}

/// How one field value is written inside an object.
pub open spec fn spec_render_leaf(l: SpecJsonLeaf) -> Seq<char> {
    match l {
        SpecJsonLeaf::Null => "null"@,
        SpecJsonLeaf::Str(s) => spec_quote(s),
        SpecJsonLeaf::Raw(t) => t,
    }
}

/// One `"name":value` field.
pub open spec fn spec_render_field(f: (Seq<char>, SpecJsonLeaf)) -> Seq<char> {
    spec_quote(f.0) + seq![':'] + spec_render_leaf(f.1)
}

/// The comma-separated fields of an object, in order.
pub open spec fn spec_render_fields(fs: Seq<(Seq<char>, SpecJsonLeaf)>) -> Seq<char>
    decreases fs.len(),
{
    if fs.len() == 0 {
        Seq::empty()
    } else if fs.len() == 1 {
        spec_render_field(fs[0])
    } else {
        spec_render_fields(fs.drop_last()) + seq![','] + spec_render_field(fs.last())
    }
}

/// The JSON text of a value: `null`, a quoted string, the canonical text it
/// was decoded with, or a braced object.
pub open spec fn spec_render_value(v: SpecJson) -> Seq<char> {
    match v {
        SpecJson::Null => "null"@,
        SpecJson::Str(s) => spec_quote(s),
        SpecJson::Raw(t) => t,
        SpecJson::Obj(fs) => seq!['{'] + spec_render_fields(fs) + seq!['}'],
    }
}

/// The plain-text reading of a value: nothing for null, a string's own
/// characters, and the JSON text of anything else.
pub open spec fn spec_text_of(v: SpecJson) -> Seq<char> {
    match v {
        SpecJson::Null => Seq::empty(),
        SpecJson::Str(s) => s,
        SpecJson::Raw(t) => t,
        SpecJson::Obj(fs) => seq!['{'] + spec_render_fields(fs) + seq!['}'],
    }
}

fn hex_char(n: u32) -> (r: char)
    requires
        n < 16,
    ensures
        r == spec_hex_char(n as int),
{
    if n == 0 {
        '0'
    } else if n == 1 {
        '1'
    } else if n == 2 {
        '2'
    } else if n == 3 {
        '3'
    } else if n == 4 {
        '4'
    } else if n == 5 {
        '5'
    } else if n == 6 {
        '6'
    } else if n == 7 {
        '7'
    } else if n == 8 {
        '8'
    } else if n == 9 {
        '9'
    } else if n == 10 {
        'a'
    } else if n == 11 {
        'b'
    } else if n == 12 {
        'c'
    } else if n == 13 {
        'd'
    } else if n == 14 {
        'e'
    } else {
        'f'
    }
}

/// Writes one escaped character.
fn escape_char_into(out: &mut Vec<char>, c: char)
    ensures
        final(out)@ == old(out)@ + spec_escape_char(c),
{
    let ghost pre = out@;
    if c == '"' {
        out.push('\\');
        out.push('"');
    } else if c == '\\' {
        out.push('\\');
        out.push('\\');
    } else if c == '\u{8}' {
        out.push('\\');
        out.push('b');
    } else if c == '\u{c}' {
        out.push('\\');
        out.push('f');
    } else if c == '\n' {
        out.push('\\');
        out.push('n');
    } else if c == '\r' {
        out.push('\\');
        out.push('r');
    } else if c == '\t' {
        out.push('\\');
        out.push('t');
    } else if (c as u32) < 32 {
        out.push('\\');
        out.push('u');
        out.push('0');
        out.push('0');
        out.push(hex_char((c as u32) / 16));
        out.push(hex_char((c as u32) % 16));
    } else {
        out.push(c);
    }
    proof {
        assert(out@ =~= pre + spec_escape_char(c));
    }
}

/// Writes a whole JSON string literal.
fn quote_into(out: &mut Vec<char>, s: &str)
    ensures
        final(out)@ == old(out)@ + spec_quote(s@),
{
    let ghost pre = out@;
    out.push('"');
    let cs = chars_of(s);
    let n = cs.len();
    let mut i: usize = 0;
    proof {
        assert(spec_escape_seq(s@.take(0)) =~= Seq::<char>::empty());
        assert(out@ =~= pre + seq!['"'] + spec_escape_seq(s@.take(0)));
    }
    while i < n
        invariant
            n == cs@.len(),
            cs@ == s@,
            i <= n,
            out@ == pre + seq!['"'] + spec_escape_seq(s@.take(i as int)),
        decreases n - i,
    {
        escape_char_into(out, cs[i]);
        i = i + 1;
        proof {
            assert(s@.take(i as int).drop_last() =~= s@.take(i - 1));
            assert(out@ =~= pre + seq!['"'] + spec_escape_seq(s@.take(i as int)));
        }
    }
    proof {
        assert(s@.take(n as int) =~= s@);
    }
    out.push('"');
    proof {
        assert(out@ =~= pre + spec_quote(s@));
    }
}

/// Writes one field value.
fn render_leaf_into(out: &mut Vec<char>, l: &JsonLeaf)
    ensures
        final(out)@ == old(out)@ + spec_render_leaf(l@),
{
    let ghost pre = out@;
    match l {
        JsonLeaf::Null => {
            out.push('n');
            out.push('u');
            out.push('l');
            out.push('l');
            proof {
                reveal_strlit("null");
                assert(out@ =~= pre + "null"@);
            }
        },
        JsonLeaf::Str(s) => {
            quote_into(out, s.as_str());
        },
        JsonLeaf::Raw(t) => {
            let cs = chars_of(t.as_str());
            let n = cs.len();
            let mut i: usize = 0;
            proof {
                assert(out@ =~= pre + t@.take(0));
            }
            while i < n
                invariant
                    n == cs@.len(),
                    cs@ == t@,
                    i <= n,
                    out@ == pre + t@.take(i as int),
                decreases n - i,
            {
                out.push(cs[i]);
                i = i + 1;
                proof {
                    assert(out@ =~= pre + t@.take(i as int));
                }
            }
            proof {
                assert(t@.take(n as int) =~= t@);
                assert(out@ =~= pre + spec_render_leaf(l@));
            }
        },
    }
}

/// The JSON text of a value.
pub fn render_value(v: &JsonValue) -> (r: String)
    ensures
        r@ == spec_render_value(v@),
{
    let mut out: Vec<char> = Vec::new();
    match v {
        JsonValue::Null => {
            out.push('n');
            out.push('u');
            out.push('l');
            out.push('l');
            proof {
                reveal_strlit("null");
                assert(out@ =~= "null"@);
            }
        },
        JsonValue::Str(s) => {
            quote_into(&mut out, s.as_str());
            proof {
                assert(out@ =~= spec_quote(s@));
            }
        },
        JsonValue::Raw(t) => {
            return t.clone();
        },
        JsonValue::Obj(fs) => {
            out.push('{');
            let n = fs.len();
            let ghost fv = field_views(fs@);
            let mut i: usize = 0;
            proof {
                assert(out@ =~= seq!['{'] + spec_render_fields(fv.take(0)));
            }
            while i < n
                invariant
                    n == fs@.len(),
                    fv == field_views(fs@),
                    i <= n,
                    out@ == seq!['{'] + spec_render_fields(fv.take(i as int)),
                decreases n - i,
            {
                if i > 0 {
                    out.push(',');
                }
                quote_into(&mut out, fs[i].0.as_str());
                out.push(':');
                render_leaf_into(&mut out, &fs[i].1);
                i = i + 1;
                proof {
                    assert(fv.take(i as int).drop_last() =~= fv.take(i - 1));
                    assert(fv.take(i as int).last() == fv[i - 1]);
                    assert(fv[i - 1] == (fs@[i - 1].0@, fs@[i - 1].1@));
                    assert(spec_render_field(fv[i - 1]) == spec_quote(fs@[i - 1].0@) + seq![':']
                        + spec_render_leaf(fs@[i - 1].1@));
                    assert(out@ =~= seq!['{'] + spec_render_fields(fv.take(i as int)));
                }
            }
            proof {
                assert(fv.take(n as int) =~= fv);
            }
            out.push('}');
            proof {
                assert(out@ =~= spec_render_value(v@));
            }
        },
    }
    string_from_chars(&out)
}

impl JsonLeaf {
    /// An exact copy.
    pub fn duplicate(&self) -> (r: JsonLeaf)
        ensures
            r@ == self@,
    {
        match self {
            JsonLeaf::Null => JsonLeaf::Null,
            JsonLeaf::Str(s) => JsonLeaf::Str(s.clone()),
            JsonLeaf::Raw(t) => JsonLeaf::Raw(t.clone()),
        }
    }

    /// The same value as a body value.
    pub fn to_value(&self) -> (r: JsonValue)
        ensures
            r@ == spec_leaf_value(self@),
    {
        match self {
            JsonLeaf::Null => JsonValue::Null,
            JsonLeaf::Str(s) => JsonValue::Str(s.clone()),
            JsonLeaf::Raw(t) => JsonValue::Raw(t.clone()),
        }
    }
}

/// A field value, seen as a body value.
pub open spec fn spec_leaf_value(l: SpecJsonLeaf) -> SpecJson {
    match l {
        SpecJsonLeaf::Null => SpecJson::Null,
        SpecJsonLeaf::Str(s) => SpecJson::Str(s),
        SpecJsonLeaf::Raw(t) => SpecJson::Raw(t),
    }
}

impl JsonValue {
    /// An exact copy.
    pub fn duplicate(&self) -> (r: JsonValue)
        ensures
            r@ == self@,
    {
        match self {
            JsonValue::Null => JsonValue::Null,
            JsonValue::Str(s) => JsonValue::Str(s.clone()),
            JsonValue::Raw(t) => JsonValue::Raw(t.clone()),
            JsonValue::Obj(fs) => {
                let n = fs.len();
                let mut out: Vec<(String, JsonLeaf)> = Vec::new();
                let mut i: usize = 0;
                while i < n
                    invariant
                        n == fs@.len(),
                        i <= n,
                        field_views(out@) == field_views(fs@).take(i as int),
                    decreases n - i,
                {
                    let ghost out_pre = out@;
                    let name = fs[i].0.clone();
                    let leaf = fs[i].1.duplicate();
                    proof {
                        assert(name@ == fs@[i as int].0@);
                        assert(leaf@ == fs@[i as int].1@);
                    }
                    out.push((name, leaf));
                    i = i + 1;
                    proof {
                        assert(field_views(out@) =~= field_views(out_pre).push(
                            (out@.last().0@, out@.last().1@),
                        ));
                        assert(field_views(out@) =~= field_views(fs@).take(i as int));
                    }
                }
                proof {
                    assert(field_views(out@) =~= field_views(fs@));
                }
                JsonValue::Obj(out)
            },
        }
    }
}

} // verus!
