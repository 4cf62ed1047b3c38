//! Request-processing core of an embeddable HTTP server: endpoint routing,
//! an ordered pre/post middleware pipeline with cancellation, a content-type
//! strategy registry for body decoding and encoding, content negotiation,
//! and request ingestion (headers, cookies, URI and multipart bodies).

pub mod body;
pub mod config_data;
pub mod endpoint;
pub mod error;
pub mod io;
pub mod parser;
pub mod server;
pub mod services;
pub mod util;

use vstd::prelude::*;

use crate::parser::json_parser::{json_parser, json_serializer, spec_json_bytes};
use crate::parser::text_parser::{text_parser, text_serializer};
use crate::parser::value::{spec_text_of, JsonValue, SpecJson};
use crate::services::error::Error;
use crate::util::keymap::{
    lemma_index_of_key_none, lemma_index_of_key_props, lemma_index_of_key_witness,
    spec_index_of_key, spec_lookup,
};
use crate::util::strutil::{lower_seq, str_eq, to_lower};

verus! {

/// The codecs a media type can be registered with.
#[derive(Clone, Copy, PartialEq, Eq, Structural)]
pub enum Codec {
    Json,
    Text,
}

/// What decoding with a codec returns.
pub open spec fn spec_decode(codec: Codec, b: Seq<u8>) -> Option<SpecJson> {
    match codec {
        Codec::Json => crate::parser::value::json_parse_bytes(b),
        Codec::Text => if vstd::utf8::valid_utf8(b) {
            Some(SpecJson::Str(vstd::utf8::decode_utf8(b)))
        } else {
            None
        },
    }
}

/// What encoding with a codec emits.
pub open spec fn spec_encode(codec: Codec, v: SpecJson) -> Seq<u8> {
    match codec {
        Codec::Json => spec_json_bytes(v),
        Codec::Text => vstd::utf8::encode_utf8(spec_text_of(v)),
    }
}

/// Registering a codec under a key: a known key is rebound, last wins.
pub open spec fn spec_register(m: Seq<(Seq<char>, Codec)>, k: Seq<char>, c: Codec) -> Seq<
    (Seq<char>, Codec),
> {
    match spec_index_of_key(m, k) {
        None => m.push((k, c)),
        Some(i) => m.update(i, (k, c)),
    }
}

/// The default registry contents: the JSON codec under `application/json`
/// and the plain-text codec under `text/plain`.
pub open spec fn spec_default_strategies() -> Seq<(Seq<char>, Codec)> {
    seq![("application/json"@, Codec::Json), ("text/plain"@, Codec::Text)]
}

/// A registry of decode strategies keyed by normalized media type: it turns
/// a request body's bytes into a structured value.
pub struct ContentTypeStrategy {
    entries: Vec<(String, Codec)>,
}

/// A registry of encode strategies keyed by normalized media type: it turns
/// a response body value into bytes.
pub struct ResponseContentTypeStrategy {
    entries: Vec<(String, Codec)>,
}

/// The mathematical content of a registry.
pub open spec fn registry_view(entries: Seq<(String, Codec)>) -> Seq<(Seq<char>, Codec)> {
    Seq::new(entries.len(), |i: int| (entries[i].0@, entries[i].1))
}

/// Index of the codec registered under `key`, scanning a registry's
/// entries.
fn registry_find(entries: &Vec<(String, Codec)>, key: &str) -> (r: Option<usize>)
    ensures
        spec_index_of_key(registry_view(entries@), key@) == match r {
            Some(i) => Some(i as int),
            None => None::<int>,
        },
        r matches Some(i) ==> i < entries@.len(),
{
    let n = entries.len();
    let ghost m = registry_view(entries@);
    let mut i: usize = 0;
    while i < n
        invariant
            n == entries@.len(),
            m == registry_view(entries@),
            i <= n,
            forall|j: int| 0 <= j < i ==> (#[trigger] m[j]).0 != key@,
        decreases n - i,
    {
        if str_eq(entries[i].0.as_str(), key) {
            proof {
                assert(m[i as int].0 == key@);
                lemma_index_of_key_witness(m, key@, i as int);
            }
            return Some(i);
        }
        proof {
            assert(m[i as int].0 == entries@[i as int].0@);
        }
        i = i + 1;
    }
    proof {
        lemma_index_of_key_none(m, key@);
    }
    None
}

impl ContentTypeStrategy {
    /// The mathematical content of the registry.
    pub closed spec fn view(&self) -> Seq<(Seq<char>, Codec)> {
        registry_view(self.entries@)
    }

    /// The registry with the default strategies.
    pub fn new() -> (r: Self)
        ensures
            r.view() == spec_default_strategies(),
    {
        let mut entries: Vec<(String, Codec)> = Vec::new();
        entries.push((String::from_str("application/json"), Codec::Json));
        entries.push((String::from_str("text/plain"), Codec::Text));
        let r = ContentTypeStrategy { entries };
        proof {
            assert(r.view() =~= spec_default_strategies());
        }
        r
    }

    /// Registers a codec under a media type; the key is normalized to lower
    /// case, and a later registration for the same key wins.
    pub fn register(&mut self, key: &str, codec: Codec)
        ensures
            final(self).view() == spec_register(old(self).view(), lower_seq(key@), codec),
    {
        let low = to_lower(key);
        register_entry(&mut self.entries, low, codec);
    }

    /// Decodes a body with the strategy registered under the media type,
    /// compared ignoring case: an unregistered type is the outer error, a
    /// body its codec rejects is the inner one.
    pub fn exec(&self, content_type: &str, bytes: &Vec<u8>) -> (r: Result<
        Result<JsonValue, Error>,
        String,
    >)
        ensures
            match spec_lookup(self.view(), lower_seq(content_type@)) {
                None => r is Err,
                Some(codec) => r matches Ok(inner) && (match spec_decode(codec, bytes@) {
                    Some(v) => inner matches Ok(x) && x@ == v,
                    None => inner is Err,
                }),
            },
    {
        let low = to_lower(content_type);
        proof {
            lemma_index_of_key_props(self.view(), low@);
        }
        match registry_find(&self.entries, low.as_str()) {
            None => Err(String::from_str("no content type strategy")),
            Some(i) => {
                proof {
                    assert(self.view()[i as int].1 == self.entries@[i as int].1);
                }
                match self.entries[i].1 {
                    Codec::Json => Ok(json_parser(bytes)),
                    Codec::Text => Ok(text_parser(bytes)),
                }
            },
        }
    }
}

impl ResponseContentTypeStrategy {
    /// The mathematical content of the registry.
    pub closed spec fn view(&self) -> Seq<(Seq<char>, Codec)> {
        registry_view(self.entries@)
    }

    /// The registry with the default strategies.
    pub fn new() -> (r: Self)
        ensures
            r.view() == spec_default_strategies(),
    {
        let mut entries: Vec<(String, Codec)> = Vec::new();
        entries.push((String::from_str("application/json"), Codec::Json));
        entries.push((String::from_str("text/plain"), Codec::Text));
        let r = ResponseContentTypeStrategy { entries };
        proof {
            assert(r.view() =~= spec_default_strategies());
        }
        r
    }

    /// Registers a codec under a media type; the key is normalized to lower
    /// case, and a later registration for the same key wins.
    pub fn register(&mut self, key: &str, codec: Codec)
        ensures
            final(self).view() == spec_register(old(self).view(), lower_seq(key@), codec),
    {
        let low = to_lower(key);
        register_entry(&mut self.entries, low, codec);
    }

    /// Encodes a body value with the strategy registered under the media
    /// type, compared ignoring case: an unregistered type is the outer
    /// error, and the registered codecs encode every value.
    pub fn exec(&self, content_type: &str, value: &JsonValue) -> (r: Result<
        Result<Vec<u8>, Error>,
        String,
    >)
        ensures
            match spec_lookup(self.view(), lower_seq(content_type@)) {
                None => r is Err,
                Some(codec) => r matches Ok(inner) && (inner matches Ok(b) && b@ == spec_encode(
                    codec,
                    value@,
                )),
            },
    {
        let low = to_lower(content_type);
        proof {
            lemma_index_of_key_props(self.view(), low@);
        }
        match registry_find(&self.entries, low.as_str()) {
            None => Err(String::from_str("no content type strategy")),
            Some(i) => {
                proof {
                    assert(self.view()[i as int].1 == self.entries@[i as int].1);
                }
                match self.entries[i].1 {
                    Codec::Json => Ok(json_serializer(value)),
                    Codec::Text => Ok(text_serializer(value)),
                }
            },
        }
    }
}

/// Rebinds or appends one registry entry.
fn register_entry(entries: &mut Vec<(String, Codec)>, key: String, codec: Codec)
    ensures
        registry_view(final(entries)@) == spec_register(
            registry_view(old(entries)@),
            key@,
            codec,
        ),
{
    let ghost pre = registry_view(entries@);
    proof {
        lemma_index_of_key_props(pre, key@);
    }
    match registry_find(entries, key.as_str()) {
        Some(i) => {
            entries.remove(i);
            entries.insert(i, (key, codec));
            proof {
                assert(registry_view(entries@) =~= pre.update(i as int, (key@, codec)));
            }
        },
        None => {
            entries.push((key, codec));
            proof {
                assert(registry_view(entries@) =~= pre.push((key@, codec)));
            }
        },
    }
}

} // verus!
