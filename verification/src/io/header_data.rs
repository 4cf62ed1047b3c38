//! One HTTP header line: its name, its raw bytes, and, where the bytes are
//! valid text, their string form.

use vstd::prelude::*;

verus! {

/// The mathematical content of a header line.
pub struct SpecHeaderData {
    pub name: Seq<char>,
    pub value: Option<Seq<char>>,
    pub value_bytes: Seq<u8>,
}

/// An individual HTTP header: a name, the value's raw bytes, and the value
/// as text when the bytes are valid text. A header whose bytes are not valid
/// text keeps `value` as `None` and is never dropped for that.
pub struct HeaderData {
    pub name: String,
    pub value: Option<String>,
    pub value_bytes: Vec<u8>,
}

impl View for HeaderData {
    type V = SpecHeaderData;

    open spec fn view(&self) -> SpecHeaderData {
        SpecHeaderData {
            name: self.name@,
            value: match self.value {
                Some(v) => Some(v@),
                None => None,
            },
            value_bytes: self.value_bytes@,
        }
    }
}

impl HeaderData {
    /// Builds a header from its parts.
    pub fn new(name: String, value_bytes: Vec<u8>, value: Option<String>) -> (r: Self)
        ensures
            r@.name == name@,
            r@.value_bytes == value_bytes@,
            r@.value == match value {
                Some(v) => Some(v@),
                None => None::<Seq<char>>,
            },
    {
        Self { name, value, value_bytes }
    }

    /// An exact copy.
    pub fn duplicate(&self) -> (r: Self)
        ensures
            r@ == self@,
    {
        HeaderData {
            name: self.name.clone(),
            value: match &self.value {
                Some(v) => Some(v.clone()),
                None => None,
            },
            value_bytes: clone_bytes(&self.value_bytes),
        }
    }
}

/// An exact copy of a byte vector.
pub fn clone_bytes(v: &Vec<u8>) -> (r: Vec<u8>)
    ensures
        r@ == v@,
{
    let n = v.len();
    let mut r: Vec<u8> = Vec::new();
    let mut i: usize = 0;
    while i < n
        invariant
            n == v@.len(),
            i <= n,
            r@ == v@.take(i as int),
        decreases n - i,
    {
        r.push(v[i]);
        i = i + 1;
        proof {
            assert(r@ =~= v@.take(i as int));
        }
    }
    proof {
        assert(r@ =~= v@);
    }
    r
}

} // verus!
