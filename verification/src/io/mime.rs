//! The media-type model for content negotiation: a type/subtype pair with an
//! optional quality value, and the parser for one entry of an Accept header.
//!
//! A quality value is kept in thousandths (`q=0.9` is 900), so that ordering
//! and parsing are exact; digits beyond the third decimal place are ignored,
//! and an integer part longer than six digits is rejected.

use vstd::prelude::*;

use crate::util::strutil::{
    all_digits, chars_of, digits_val, find_char, find_sub, first_index_of, first_occurrence,
    spec_is_digit, split_chars, split_seq, string_from_chars, trim_chars, trim_seq, views_of,
};

verus! {

/// The mathematical content of a media type.
pub struct SpecMime {
    pub media_type: Seq<char>,
    pub subtype: Seq<char>,
    pub q: Option<u32>,
}

/// A media type: type and subtype, plus an optional quality value in
/// thousandths (absent means the entry carries no explicit preference and
/// sorts after every entry that does).
pub struct Mime {
    pub media_type: String,
    pub subtype: String,
    pub q: Option<u32>,
}

impl View for Mime {
    type V = SpecMime;

    open spec fn view(&self) -> SpecMime {
        SpecMime { media_type: self.media_type@, subtype: self.subtype@, q: self.q }
    }
}

/// Strict "is served first" order between two entries: a present quality
/// beats an absent one, and a higher quality beats a lower one.
pub open spec fn accept_before(a: SpecMime, b: SpecMime) -> bool {
    match (a.q, b.q) {
        (Some(x), Some(y)) => x > y,
        (Some(_), None) => true,
        (None, Some(_)) => false,
        (None, None) => false,
    }
}

/// Two entries rank the same: equal qualities, or both absent.
pub open spec fn accept_same_rank(a: SpecMime, b: SpecMime) -> bool {
    match (a.q, b.q) {
        (Some(x), Some(y)) => x == y,
        (None, None) => true,
        _ => false,
    }
}

pub open spec fn spec_accept_all_media_types(m: SpecMime) -> bool {
    m.media_type == "*"@
}

pub open spec fn spec_accept_all_subtypes(m: SpecMime) -> bool {
    m.subtype == "*"@
}

pub open spec fn spec_accept_all(m: SpecMime) -> bool {
    spec_accept_all_media_types(m) && spec_accept_all_subtypes(m)
}

/// The full `type/subtype` form of a media type.
pub open spec fn spec_mime_type(m: SpecMime) -> Seq<char> {
    m.media_type + "/"@ + m.subtype
}

pub open spec fn pow10(n: nat) -> int
    decreases n,
{
    if n == 0 {
        1
    } else {
        10 * pow10((n - 1) as nat)
    }
}

pub proof fn lemma_digits_val_bound(s: Seq<char>)
    requires
        all_digits(s),
    ensures
        0 <= digits_val(s) < pow10(s.len()),
    decreases s.len(),
{
    if s.len() > 0 {
        assert(all_digits(s.drop_last())) by {
            assert(forall|i: int| 0 <= i < s.len() - 1 ==> s.drop_last()[i] == s[i]);
        }
        lemma_digits_val_bound(s.drop_last());
    }
}

/// The value of the `i`-th fractional digit, taking absent digits as zero.
pub open spec fn frac_digit(s: Seq<char>, i: int) -> int {
    if 0 <= i < s.len() {
        s[i] as int - '0' as int
    } else {
        0
    }
}

/// The value in thousandths of a fractional part: only the first three
/// digits matter.
pub open spec fn frac_millis(s: Seq<char>) -> int {
    100 * frac_digit(s, 0) + 10 * frac_digit(s, 1) + frac_digit(s, 2)
}

/// What parsing a quality literal returns: `digits` or `digits.digits`, in
/// thousandths; anything else, or an integer part over six digits, is
/// rejected.
pub open spec fn spec_q_millis(s: Seq<char>) -> Option<u32> {
    match first_index_of(s, '.', 0) {
        None => if s.len() > 0 && s.len() <= 6 && all_digits(s) {
            Some((digits_val(s) * 1000) as u32)
        } else {
            None
        },
        Some(d) => {
            let ip = s.take(d);
            let fp = s.skip(d + 1);
            if ip.len() > 0 && ip.len() <= 6 && all_digits(ip) && all_digits(fp) {
                Some((digits_val(ip) * 1000 + frac_millis(fp)) as u32)
            } else {
                None
            }
        },
    }
}

/// The needle that separates a media type from its quality parameter.
pub open spec fn q_separator() -> Seq<char> {
    seq![';', 'q', '=']
}

/// What parsing one Accept-header entry returns. An entry is the media type,
/// optionally followed by parameters; a quality is read only from a single
/// `;q=` separator, and an entry with a `;` but no single well-formed
/// quality is rejected, as is one whose media type is not `type/subtype`
/// with both halves non-blank.
pub open spec fn spec_parse_accept_entry(value: Seq<char>) -> Option<SpecMime> {
    let v = trim_seq(value);
    if v.len() == 0 {
        None
    } else {
        let q = if first_index_of(v, ';', 0) is Some {
            match first_occurrence(v, q_separator(), 0) {
                None => None,
                Some(i) => if first_occurrence(v, q_separator(), i + 1) is Some {
                    None
                } else {
                    spec_q_millis(v.skip(i + 3))
                },
            }
        } else {
            Some(1000u32)
        };
        match q {
            None => None,
            Some(qv) => {
                let head = match first_index_of(v, ';', 0) {
                    None => v,
                    Some(k) => v.take(k),
                };
                let parts = split_seq(trim_seq(head), '/');
                if parts.len() == 2 && trim_seq(parts[0]).len() > 0 && trim_seq(parts[1]).len()
                    > 0 {
                    Some(
                        SpecMime {
                            media_type: trim_seq(parts[0]),
                            subtype: trim_seq(parts[1]),
                            q: Some(qv),
                        },
                    )
                } else {
                    None
                }
            },
        }
    }
}

fn is_digit_char(c: char) -> (r: bool)
    ensures
        r == spec_is_digit(c),
{
    '0' <= c && c <= '9'
}

/// Whether every character of `cs` is a decimal digit.
fn check_all_digits(cs: &Vec<char>) -> (r: bool)
    ensures
        r == all_digits(cs@),
{
    let n = cs.len();
    let mut i: usize = 0;
    while i < n
        invariant
            n == cs@.len(),
            i <= n,
            forall|j: int| 0 <= j < i ==> spec_is_digit(cs@[j]),
        decreases n - i,
    {
        if !is_digit_char(cs[i]) {
            return false;
        }
        i = i + 1;
    }
    true
}

/// The value of a vector of at most six decimal digits.
fn digits_to_value(cs: &Vec<char>) -> (r: u32)
    requires
        all_digits(cs@),
        cs@.len() <= 6,
    ensures
        r == digits_val(cs@),
{
    let n = cs.len();
    let mut acc: u32 = 0;
    let mut i: usize = 0;
    while i < n
        invariant
            n == cs@.len(),
            n <= 6,
            all_digits(cs@),
            i <= n,
            acc == digits_val(cs@.take(i as int)),
            acc < pow10(i as nat),
        decreases n - i,
    {
        let c = cs[i];
        proof {
            assert(cs@.take(i + 1).drop_last() =~= cs@.take(i as int));
            assert(forall|j: int| 0 <= j < i + 1 ==> spec_is_digit(#[trigger] cs@.take(i + 1)[j]));
            lemma_digits_val_bound(cs@.take(i + 1));
            assert(pow10(6) == 1000000) by {
                reveal_with_fuel(pow10, 7);
            }
            assert(pow10((i + 1) as nat) <= pow10(6)) by {
                lemma_pow10_monotone((i + 1) as nat, 6);
            }
        }
        acc = acc * 10 + (((c as u32) - ('0' as u32)) as u32);
        i = i + 1;
    }
    proof {
        assert(cs@.take(n as int) =~= cs@);
    }
    acc
}

proof fn lemma_pow10_monotone(a: nat, b: nat)
    requires
        a <= b,
    ensures
        pow10(a) <= pow10(b),
        pow10(a) >= 1,
    decreases b,
{
    if a == b {
        if a > 0 {
            lemma_pow10_monotone((a - 1) as nat, (b - 1) as nat);
        }
    } else {
        lemma_pow10_monotone(a, (b - 1) as nat);
    }
}

/// Parses a quality literal into thousandths.
fn parse_q_millis(cs: &Vec<char>) -> (r: Option<u32>)
    ensures
        r == spec_q_millis(cs@),
{
    let dot = find_char(cs, '.', 0);
    match dot {
        None => {
            if cs.len() > 0 && cs.len() <= 6 && check_all_digits(cs) {
                proof {
                    lemma_digits_val_bound(cs@);
                    assert(pow10(6) == 1000000) by {
                        reveal_with_fuel(pow10, 7);
                    }
                    lemma_pow10_monotone(cs@.len(), 6);
                }
                Some(digits_to_value(cs) * 1000)
            } else {
                None
            }
        },
        Some(d) => {
            let n = cs.len();
            proof {
                crate::util::strutil::lemma_first_index_of_in_range(cs@, '.', 0);
                assert(d < n);
            }
            let mut ip: Vec<char> = Vec::new();
            let mut i: usize = 0;
            while i < d
                invariant
                    d < cs@.len(),
                    i <= d,
                    ip@ == cs@.take(d as int).take(i as int),
                decreases d - i,
            {
                ip.push(cs[i]);
                i = i + 1;
                proof {
                    assert(ip@ =~= cs@.take(d as int).take(i as int));
                }
            }
            proof {
                assert(ip@ =~= cs@.take(d as int));
            }
            let mut fp: Vec<char> = Vec::new();
            let mut j: usize = d + 1;
            while j < n
                invariant
                    n == cs@.len(),
                    d + 1 <= j <= n,
                    fp@ == cs@.skip(d + 1).take(j - (d + 1)),
                decreases n - j,
            {
                fp.push(cs[j]);
                j = j + 1;
                proof {
                    assert(fp@ =~= cs@.skip(d + 1).take(j - (d + 1)));
                }
            }
            proof {
                assert(fp@ =~= cs@.skip(d + 1));
            }
            if ip.len() > 0 && ip.len() <= 6 && check_all_digits(&ip) && check_all_digits(&fp) {
                proof {
                    lemma_digits_val_bound(ip@);
                    assert(pow10(6) == 1000000) by {
                        reveal_with_fuel(pow10, 7);
                    }
                    lemma_pow10_monotone(ip@.len(), 6);
                }
                let whole = digits_to_value(&ip) * 1000;
                let f0 = frac_digit_at(&fp, 0);
                let f1 = frac_digit_at(&fp, 1);
                let f2 = frac_digit_at(&fp, 2);
                Some(whole + 100 * f0 + 10 * f1 + f2)
            } else {
                None
            }
        },
    }
}

fn frac_digit_at(fp: &Vec<char>, i: usize) -> (r: u32)
    requires
        all_digits(fp@),
    ensures
        r == frac_digit(fp@, i as int),
        r <= 9,
{
    if i < fp.len() {
        let c = fp[i];
        ((c as u32) - ('0' as u32)) as u32
    } else {
        0
    }
}

impl Mime {
    /// Builds a media type from its parts.
    pub fn new(media_type: String, subtype: String, q: Option<u32>) -> (r: Self)
        ensures
            r@ == (SpecMime { media_type: media_type@, subtype: subtype@, q }),
    {
        Self { media_type, subtype, q }
    }

    /// An exact copy.
    pub fn duplicate(&self) -> (r: Self)
        ensures
            r@ == self@,
    {
        Mime { media_type: self.media_type.clone(), subtype: self.subtype.clone(), q: self.q }
    }

    /// The `type/subtype` form.
    pub fn get_mime_type(&self) -> (r: String)
        ensures
            r@ == spec_mime_type(self@),
    {
        self.media_type.clone().concat("/").concat(self.subtype.as_str())
    }

    /// Whether the entry accepts every media type.
    pub fn accept_all(&self) -> (r: bool)
        ensures
            r == spec_accept_all(self@),
    {
        self.accept_all_media_types() && self.accept_all_subtypes()
    }

    /// Whether the type half is the wildcard.
    pub fn accept_all_media_types(&self) -> (r: bool)
        ensures
            r == spec_accept_all_media_types(self@),
    {
        crate::util::strutil::str_eq(self.media_type.as_str(), "*")
    }

    /// Whether the subtype half is the wildcard.
    pub fn accept_all_subtypes(&self) -> (r: bool)
        ensures
            r == spec_accept_all_subtypes(self@),
    {
        crate::util::strutil::str_eq(self.subtype.as_str(), "*")
    }

    /// Whether this entry is served strictly before `other`.
    pub fn precedes(&self, other: &Mime) -> (r: bool)
        ensures
            r == accept_before(self@, other@),
    {
        match (self.q, other.q) {
            (Some(x), Some(y)) => x > y,
            (Some(_), None) => true,
            _ => false,
        }
    }

    /// Whether this entry and `other` rank the same.
    pub fn same_rank(&self, other: &Mime) -> (r: bool)
        ensures
            r == accept_same_rank(self@, other@),
    {
        match (self.q, other.q) {
            (Some(x), Some(y)) => x == y,
            (None, None) => true,
            _ => false,
        }
    }

    /// Parses one entry of an Accept header.
    pub fn from_accept_str(value: &str) -> (r: Result<Mime, ()>)
        ensures
            match r {
                Ok(m) => spec_parse_accept_entry(value@) == Some(m@),
                Err(()) => spec_parse_accept_entry(value@) is None,
            },
    {
        let raw = chars_of(value);
        let v = trim_chars(&raw);
        if v.len() == 0 {
            return Err(());
        }
        let semi = find_char(&v, ';', 0);
        let q: Option<u32> = match semi {
            Some(_) => {
                let needle: Vec<char> = vec![';', 'q', '='];
                proof {
                    assert(needle@ =~= q_separator());
                }
                match find_sub(&v, &needle, 0) {
                    None => None,
                    Some(i) => {
                        proof {
                            crate::util::strutil::lemma_first_occurrence_in_range(
                                v@,
                                q_separator(),
                                0,
                            );
                        }
                        if find_sub(&v, &needle, i + 1).is_some() {
                            None
                        } else {
                            let n = v.len();
                            let mut suffix: Vec<char> = Vec::new();
                            let mut j: usize = i + 3;
                            while j < n
                                invariant
                                    n == v@.len(),
                                    i + 3 <= j <= n,
                                    suffix@ == v@.skip(i + 3).take(j - (i + 3)),
                                decreases n - j,
                            {
                                suffix.push(v[j]);
                                j = j + 1;
                                proof {
                                    assert(suffix@ =~= v@.skip(i + 3).take(j - (i + 3)));
                                }
                            }
                            proof {
                                assert(suffix@ =~= v@.skip(i + 3));
                            }
                            parse_q_millis(&suffix)
                        }
                    },
                }
            },
            None => Some(1000),
        };
        let qv = match q {
            Some(qv) => qv,
            None => {
                return Err(());
            },
        };
        let head: Vec<char> = match semi {
            None => v,
            Some(k) => {
                proof {
                    crate::util::strutil::lemma_first_index_of_in_range(v@, ';', 0);
                }
                let mut h: Vec<char> = Vec::new();
                let mut j: usize = 0;
                while j < k
                    invariant
                        k < v@.len(),
                        j <= k,
                        h@ == v@.take(k as int).take(j as int),
                    decreases k - j,
                {
                    h.push(v[j]);
                    j = j + 1;
                    proof {
                        assert(h@ =~= v@.take(k as int).take(j as int));
                    }
                }
                proof {
                    assert(h@ =~= v@.take(k as int));
                }
                h
            },
        };
        let mt = trim_chars(&head);
        let parts = split_chars(&mt, '/');
        if parts.len() != 2 {
            return Err(());
        }
        proof {
            assert(split_seq(mt@, '/')[0] == views_of(parts@)[0]);
            assert(split_seq(mt@, '/')[1] == views_of(parts@)[1]);
        }
        let media = trim_chars(&parts[0]);
        let sub = trim_chars(&parts[1]);
        if media.len() == 0 || sub.len() == 0 {
            return Err(());
        }
        Ok(
            Mime::new(
                string_from_chars(&media),
                string_from_chars(&sub),
                Some(qv),
            ),
        )
    }
}

} // verus!
