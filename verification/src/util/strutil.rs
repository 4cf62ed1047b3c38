//! Character-level string utilities: ASCII case folding, trimming, splitting
//! and substring search, each proved against a spec function over `Seq<char>`.

use vstd::prelude::*;

verus! {

/// ASCII lower-casing of one character; other characters are unchanged.
pub open spec fn spec_lower_char(c: char) -> char {
    if 'A' <= c && c <= 'Z' {
        ((c as u32) + 32) as char
    } else {
        c
    }
}

/// ASCII upper-casing of one character; other characters are unchanged.
pub open spec fn spec_upper_char(c: char) -> char {
    if 'a' <= c && c <= 'z' {
        ((c as u32) - 32) as char
    } else {
        c
    }
}

pub open spec fn lower_seq(s: Seq<char>) -> Seq<char> {
    s.map_values(|c: char| spec_lower_char(c))
}

pub open spec fn upper_seq(s: Seq<char>) -> Seq<char> {
    s.map_values(|c: char| spec_upper_char(c))
}

/// ASCII whitespace, as trimming understands it.
pub open spec fn spec_is_space(c: char) -> bool {
    c == ' ' || c == '\t' || c == '\n' || c == '\r' || c == '\u{b}' || c == '\u{c}'
}

pub open spec fn drop_leading_spaces(s: Seq<char>) -> Seq<char>
    decreases s.len(),
{
    if s.len() > 0 && spec_is_space(s[0]) {
        drop_leading_spaces(s.drop_first())
    } else {
        s
    }
}

pub open spec fn drop_trailing_spaces(s: Seq<char>) -> Seq<char>
    decreases s.len(),
{
    if s.len() > 0 && spec_is_space(s[s.len() - 1]) {
        drop_trailing_spaces(s.drop_last())
    } else {
        s
    }
}

/// What trimming a string returns: the string without its leading and
/// trailing ASCII whitespace.
pub open spec fn trim_seq(s: Seq<char>) -> Seq<char> {
    drop_trailing_spaces(drop_leading_spaces(s))
}

/// Index of the first occurrence of character `c` in `s` at or after `from`.
pub open spec fn first_index_of(s: Seq<char>, c: char, from: int) -> Option<int>
    decreases s.len() - from,
{
    if from < 0 || from >= s.len() {
        None
    } else if s[from] == c {
        Some(from)
    } else {
        first_index_of(s, c, from + 1)
    }
}

pub proof fn lemma_first_index_of_in_range(s: Seq<char>, c: char, from: int)
    requires
        0 <= from,
        first_index_of(s, c, from) is Some,
    ensures
        from <= first_index_of(s, c, from)->Some_0 < s.len(),
        s[first_index_of(s, c, from)->Some_0] == c,
    decreases s.len() - from,
{
    if from < s.len() && s[from] != c {
        lemma_first_index_of_in_range(s, c, from + 1);
    }
}

/// Splitting on a separator character: the pieces between occurrences of the
/// separator, in order; a string without the separator is one piece.
pub open spec fn split_seq(s: Seq<char>, sep: char) -> Seq<Seq<char>>
    decreases s.len(),
    via split_seq_decreases
{
    match first_index_of(s, sep, 0) {
        None => seq![s],
        Some(i) => seq![s.take(i)] + split_seq(s.skip(i + 1), sep),
    }
}

#[via_fn]
proof fn split_seq_decreases(s: Seq<char>, sep: char) {
    match first_index_of(s, sep, 0) {
        None => {},
        Some(i) => {
            lemma_first_index_of_in_range(s, sep, 0);
        },
    }
}

/// Index of the first occurrence of `t` as a contiguous part of `s`,
/// at or after `from`.
pub open spec fn first_occurrence(s: Seq<char>, t: Seq<char>, from: int) -> Option<int>
    decreases s.len() - from,
    via first_occurrence_decreases
{
    if from < 0 || from + t.len() > s.len() {
        None
    } else if s.subrange(from, from + t.len() as int) == t {
        Some(from)
    } else {
        first_occurrence(s, t, from + 1)
    }
}

#[via_fn]
proof fn first_occurrence_decreases(s: Seq<char>, t: Seq<char>, from: int) {
    if 0 <= from && from + t.len() <= s.len() && t.len() == 0 {
        assert(s.subrange(from, from + t.len() as int) =~= t);
    }
}

/// The characters of a string, as a vector.
pub fn chars_of(s: &str) -> (r: Vec<char>)
    ensures
        r@ == s@,
{
    let n = s.unicode_len();
    let mut r: Vec<char> = Vec::new();
    let mut i: usize = 0;
    while i < n
        invariant
            n == s@.len(),
            i <= n,
            r@ == s@.take(i as int),
        decreases n - i,
    {
        r.push(s.get_char(i));
        i = i + 1;
        proof {
            assert(r@ =~= s@.take(i as int));
        }
    }
    proof {
        assert(r@ =~= s@);
    }
    r
}

/// Relies on `core::iter::Iterator::collect` for `String`: collecting
/// characters yields the string of exactly those characters, in order.
#[verifier::external_body]
pub(crate) fn string_from_chars(cs: &Vec<char>) -> (r: String)
    ensures
        r@ == cs@,
{
    cs.iter().collect()
}

/// ASCII lower-casing of a whole string.
pub fn to_lower(s: &str) -> (r: String)
    ensures
        r@ == lower_seq(s@),
{
    let cs = chars_of(s);
    let n = cs.len();
    let mut out: Vec<char> = Vec::new();
    let mut i: usize = 0;
    while i < n
        invariant
            n == cs@.len(),
            cs@ == s@,
            i <= n,
            out@ == lower_seq(s@).take(i as int),
        decreases n - i,
    {
        let c = cs[i];
        let l = if 'A' <= c && c <= 'Z' {
            (((c as u32) + 32) as u8) as char
        } else {
            c
        };
        out.push(l);
        i = i + 1;
        proof {
            assert(out@ =~= lower_seq(s@).take(i as int));
        }
    }
    proof {
        assert(out@ =~= lower_seq(s@));
    }
    string_from_chars(&out)
}

/// ASCII upper-casing of a whole string.
pub fn to_upper(s: &str) -> (r: String)
    ensures
        r@ == upper_seq(s@),
{
    let cs = chars_of(s);
    let n = cs.len();
    let mut out: Vec<char> = Vec::new();
    let mut i: usize = 0;
    while i < n
        invariant
            n == cs@.len(),
            cs@ == s@,
            i <= n,
            out@ == upper_seq(s@).take(i as int),
        decreases n - i,
    {
        let c = cs[i];
        let u = if 'a' <= c && c <= 'z' {
            (((c as u32) - 32) as u8) as char
        } else {
            c
        };
        out.push(u);
        i = i + 1;
        proof {
            assert(out@ =~= upper_seq(s@).take(i as int));
        }
    }
    proof {
        assert(out@ =~= upper_seq(s@));
    }
    string_from_chars(&out)
}

/// Character-wise string equality.
pub fn str_eq(a: &str, b: &str) -> (r: bool)
    ensures
        r == (a@ == b@),
{
    let na = a.unicode_len();
    let nb = b.unicode_len();
    if na != nb {
        proof {
            assert(a@.len() != b@.len());
        }
        return false;
    }
    let mut i: usize = 0;
    while i < na
        invariant
            na == a@.len(),
            na == b@.len(),
            i <= na,
            forall|j: int| 0 <= j < i ==> a@[j] == b@[j],
        decreases na - i,
    {
        if a.get_char(i) != b.get_char(i) {
            return false;
        }
        i = i + 1;
    }
    proof {
        assert(a@ =~= b@);
    }
    true
}

/// Equality of a vector of characters and a string.
pub fn chars_eq_str(a: &Vec<char>, b: &str) -> (r: bool)
    ensures
        r == (a@ == b@),
{
    let nb = b.unicode_len();
    if a.len() != nb {
        return false;
    }
    let mut i: usize = 0;
    while i < nb
        invariant
            nb == b@.len(),
            nb == a@.len(),
            i <= nb,
            forall|j: int| 0 <= j < i ==> a@[j] == b@[j],
        decreases nb - i,
    {
        if a[i] != b.get_char(i) {
            return false;
        }
        i = i + 1;
    }
    proof {
        assert(a@ =~= b@);
    }
    true
}

/// Equality of two vectors of characters.
pub fn chars_eq(a: &Vec<char>, b: &Vec<char>) -> (r: bool)
    ensures
        r == (a@ == b@),
{
    let n = a.len();
    if n != b.len() {
        return false;
    }
    let mut i: usize = 0;
    while i < n
        invariant
            n == a@.len(),
            n == b@.len(),
            i <= n,
            forall|j: int| 0 <= j < i ==> a@[j] == b@[j],
        decreases n - i,
    {
        if a[i] != b[i] {
            return false;
        }
        i = i + 1;
    }
    proof {
        assert(a@ =~= b@);
    }
    true
}

fn is_space_char(c: char) -> (r: bool)
    ensures
        r == spec_is_space(c),
{
    c == ' ' || c == '\t' || c == '\n' || c == '\r' || c == '\u{b}' || c == '\u{c}'
}

proof fn lemma_drop_leading_spaces_step(s: Seq<char>, i: int)
    requires
        0 <= i < s.len(),
        forall|j: int| 0 <= j < i ==> spec_is_space(s[j]),
        !spec_is_space(s[i]),
    ensures
        drop_leading_spaces(s) == s.skip(i),
    decreases i,
{
    if i == 0 {
        assert(drop_leading_spaces(s) == s);
        assert(s.skip(0) =~= s);
    } else {
        assert(spec_is_space(s[0]));
        assert(s.drop_first() =~= s.skip(1));
        lemma_drop_leading_spaces_step(s.skip(1), i - 1);
        assert(s.skip(1).skip(i - 1) =~= s.skip(i));
    }
}

proof fn lemma_drop_leading_spaces_all(s: Seq<char>)
    requires
        forall|j: int| 0 <= j < s.len() ==> spec_is_space(s[j]),
    ensures
        drop_leading_spaces(s) == Seq::<char>::empty(),
    decreases s.len(),
{
    if s.len() > 0 {
        assert(s.drop_first() =~= s.skip(1));
        lemma_drop_leading_spaces_all(s.skip(1));
    } else {
        assert(s =~= Seq::<char>::empty());
    }
}

proof fn lemma_drop_trailing_spaces_step(s: Seq<char>, i: int)
    requires
        0 <= i < s.len(),
        forall|j: int| i < j < s.len() ==> spec_is_space(s[j]),
        !spec_is_space(s[i]),
    ensures
        drop_trailing_spaces(s) == s.take(i + 1),
    decreases s.len(),
{
    if i == s.len() - 1 {
        assert(drop_trailing_spaces(s) == s);
        assert(s.take(i + 1) =~= s);
    } else {
        assert(spec_is_space(s[s.len() - 1]));
        assert(s.drop_last() =~= s.take(s.len() - 1));
        lemma_drop_trailing_spaces_step(s.take(s.len() - 1), i);
        assert(s.take(s.len() - 1).take(i + 1) =~= s.take(i + 1));
    }
}

/// Trims ASCII whitespace from both ends.
pub fn trim_chars(cs: &Vec<char>) -> (r: Vec<char>)
    ensures
        r@ == trim_seq(cs@),
{
    let n = cs.len();
    let mut start: usize = 0;
    while start < n && is_space_char(cs[start])
        invariant
            n == cs@.len(),
            start <= n,
            forall|j: int| 0 <= j < start ==> spec_is_space(cs@[j]),
        decreases n - start,
    {
        start = start + 1;
    }
    if start == n {
        proof {
            lemma_drop_leading_spaces_all(cs@);
        }
        let r: Vec<char> = Vec::new();
        proof {
            assert(r@ =~= trim_seq(cs@));
        }
        return r;
    }
    proof {
        lemma_drop_leading_spaces_step(cs@, start as int);
    }
    let mut end: usize = n;
    while end > start + 1 && is_space_char(cs[end - 1])
        invariant
            n == cs@.len(),
            start < end <= n,
            forall|j: int| end <= j < n ==> spec_is_space(cs@[j]),
        decreases end,
    {
        end = end - 1;
    }
    // cs[end - 1] is not a space: either the loop stopped on the test, or
    // end == start + 1 and cs[start] is not a space.
    proof {
        lemma_drop_trailing_spaces_step(cs@.skip(start as int), end - 1 - start);
        assert(cs@.skip(start as int).take(end - start) =~= cs@.subrange(
            start as int,
            end as int,
        ));
    }
    let mut out: Vec<char> = Vec::new();
    let mut i: usize = start;
    while i < end
        invariant
            start <= i <= end <= n,
            n == cs@.len(),
            out@ == cs@.subrange(start as int, i as int),
        decreases end - i,
    {
        out.push(cs[i]);
        i = i + 1;
        proof {
            assert(out@ =~= cs@.subrange(start as int, i as int));
        }
    }
    out
}

/// Trims a string.
pub fn trim_str(s: &str) -> (r: String)
    ensures
        r@ == trim_seq(s@),
{
    let cs = chars_of(s);
    let t = trim_chars(&cs);
    string_from_chars(&t)
}

/// First occurrence of character `c` in `cs` at or after `from`.
pub fn find_char(cs: &Vec<char>, c: char, from: usize) -> (r: Option<usize>)
    ensures
        match r {
            Some(i) => first_index_of(cs@, c, from as int) == Some(i as int),
            None => first_index_of(cs@, c, from as int) is None,
        },
{
    let n = cs.len();
    let mut i: usize = from;
    while i < n
        invariant
            n == cs@.len(),
            from <= i,
            first_index_of(cs@, c, from as int) == first_index_of(cs@, c, i as int),
        decreases n - i,
    {
        if cs[i] == c {
            return Some(i);
        }
        i = i + 1;
    }
    None
}

/// Whether `t` occurs in `s` at exactly position `i`.
fn window_matches(s: &Vec<char>, t: &Vec<char>, i: usize) -> (r: bool)
    requires
        i + t@.len() <= s@.len(),
    ensures
        r == (s@.subrange(i as int, i + t@.len()) == t@),
{
    let n = s.len();
    let m = t.len();
    let mut k: usize = 0;
    while k < m
        invariant
            n == s@.len(),
            m == t@.len(),
            i + m <= n,
            k <= m,
            s@.subrange(i as int, i + k) == t@.take(k as int),
        decreases m - k,
    {
        if s[i + k] != t[k] {
            proof {
                assert(s@.subrange(i as int, i + m as int)[k as int] == s@[i + k]);
            }
            return false;
        }
        proof {
            assert(s@.subrange(i as int, i + k + 1) =~= s@.subrange(i as int, i + k).push(
                s@[i + k],
            ));
            assert(t@.take(k as int + 1) =~= t@.take(k as int).push(t@[k as int]));
        }
        k = k + 1;
    }
    proof {
        assert(t@.take(m as int) =~= t@);
    }
    true
}

/// First occurrence of `t` as a contiguous part of `s`, at or after `from`.
pub fn find_sub(s: &Vec<char>, t: &Vec<char>, from: usize) -> (r: Option<usize>)
    ensures
        match r {
            Some(i) => first_occurrence(s@, t@, from as int) == Some(i as int),
            None => first_occurrence(s@, t@, from as int) is None,
        },
{
    let n = s.len();
    let m = t.len();
    if m > n {
        return None;
    }
    if m == 0 {
        if from <= n {
            proof {
                assert(s@.subrange(from as int, from as int) =~= t@);
            }
            return Some(from);
        }
        return None;
    }
    if from > n - m {
        return None;
    }
    let mut i: usize = from;
    while i <= n - m
        invariant
            n == s@.len(),
            m == t@.len(),
            1 <= m <= n,
            from <= i,
            i <= n - m + 1,
            first_occurrence(s@, t@, from as int) == first_occurrence(s@, t@, i as int),
        decreases n - i,
    {
        if window_matches(s, t, i) {
            return Some(i);
        }
        i = i + 1;
    }
    None
}

pub proof fn lemma_first_occurrence_in_range(s: Seq<char>, t: Seq<char>, from: int)
    requires
        0 <= from,
        first_occurrence(s, t, from) is Some,
    ensures
        from <= first_occurrence(s, t, from)->Some_0,
        first_occurrence(s, t, from)->Some_0 + t.len() <= s.len(),
    decreases s.len() - from,
{
    if t.len() == 0 && from <= s.len() {
        assert(s.subrange(from, from + t.len() as int) =~= t);
    }
    if from + t.len() <= s.len() && s.subrange(from, from + t.len() as int) != t {
        lemma_first_occurrence_in_range(s, t, from + 1);
    }
}

/// The views of a sequence of character vectors.
pub open spec fn views_of(v: Seq<Vec<char>>) -> Seq<Seq<char>> {
    Seq::new(v.len(), |i: int| v[i]@)
}

pub proof fn lemma_first_index_of_none(s: Seq<char>, c: char, from: int)
    requires
        0 <= from,
        forall|j: int| from <= j < s.len() ==> s[j] != c,
    ensures
        first_index_of(s, c, from) is None,
    decreases s.len() - from,
{
    if from < s.len() {
        lemma_first_index_of_none(s, c, from + 1);
    }
}

pub proof fn lemma_first_index_of_exact(s: Seq<char>, c: char, from: int, k: int)
    requires
        0 <= from <= k < s.len(),
        s[k] == c,
        forall|j: int| from <= j < k ==> s[j] != c,
    ensures
        first_index_of(s, c, from) == Some(k),
    decreases k - from,
{
    if from < k {
        lemma_first_index_of_exact(s, c, from + 1, k);
    }
}

/// Splits a vector of characters on a separator character.
pub fn split_chars(cs: &Vec<char>, sep: char) -> (r: Vec<Vec<char>>)
    ensures
        views_of(r@) == split_seq(cs@, sep),
{
    let n = cs.len();
    let mut acc: Vec<Vec<char>> = Vec::new();
    let mut cur: Vec<char> = Vec::new();
    let ghost mut start: int = 0;
    proof {
        assert(cs@.skip(0) =~= cs@);
        assert(views_of(acc@) + split_seq(cs@, sep) =~= split_seq(cs@, sep));
    }
    let mut i: usize = 0;
    while i < n
        invariant
            n == cs@.len(),
            0 <= start <= i <= n,
            cur@ == cs@.subrange(start, i as int),
            forall|j: int| start <= j < i ==> cs@[j] != sep,
            split_seq(cs@, sep) == views_of(acc@) + split_seq(
                cs@.skip(start),
                sep,
            ),
        decreases n - i,
    {
        let c = cs[i];
        if c == sep {
            proof {
                lemma_split_at_sep(cs@, sep, start, i as int);
            }
            let ghost acc_pre = acc@;
            let ghost cur_pre = cur@;
            acc.push(cur);
            cur = Vec::new();
            proof {
                assert(views_of(acc@) =~= views_of(acc_pre).push(cur_pre));
                start = i + 1;
            }
        } else {
            cur.push(c);
        }
        i = i + 1;
        proof {
            assert(cur@ =~= cs@.subrange(start, i as int));
        }
    }
    proof {
        lemma_split_no_sep(cs@, sep, start);
    }
    let ghost acc_pre = acc@;
    let ghost cur_pre = cur@;
    acc.push(cur);
    proof {
        assert(cur_pre =~= cs@.skip(start));
        assert(views_of(acc@) =~= views_of(acc_pre).push(
            cur_pre,
        ));
    }
    acc
}

/// When the first separator after `start` stands at `i`, the split of the
/// suffix at `start` begins with the piece between them.
proof fn lemma_split_at_sep(s: Seq<char>, sep: char, start: int, i: int)
    requires
        0 <= start <= i < s.len(),
        s[i] == sep,
        forall|j: int| start <= j < i ==> s[j] != sep,
    ensures
        split_seq(s.skip(start), sep) == seq![s.subrange(start, i)] + split_seq(
            s.skip(i + 1),
            sep,
        ),
{
    let suf = s.skip(start);
    assert(suf[i - start] == sep);
    assert(forall|j: int| 0 <= j < i - start ==> suf[j] != sep);
    lemma_first_index_of_exact(suf, sep, 0, i - start);
    assert(suf.take(i - start) =~= s.subrange(start, i));
    assert(suf.skip(i - start + 1) =~= s.skip(i + 1));
}

/// A suffix without the separator splits into itself alone.
proof fn lemma_split_no_sep(s: Seq<char>, sep: char, start: int)
    requires
        0 <= start <= s.len(),
        forall|j: int| start <= j < s.len() ==> s[j] != sep,
    ensures
        split_seq(s.skip(start), sep) == seq![s.skip(start)],
{
    let suf = s.skip(start);
    assert(forall|j: int| 0 <= j < suf.len() ==> suf[j] != sep);
    lemma_first_index_of_none(suf, sep, 0);
}

/// Whether `s` is made of decimal digits.
pub open spec fn spec_is_digit(c: char) -> bool {
    '0' <= c && c <= '9'
}

pub open spec fn all_digits(s: Seq<char>) -> bool {
    forall|i: int| 0 <= i < s.len() ==> spec_is_digit(s[i])
}

/// The value of a sequence of decimal digits.
pub open spec fn digits_val(s: Seq<char>) -> int
    decreases s.len(),
{
    if s.len() == 0 {
        0
    } else {
        digits_val(s.drop_last()) * 10 + (s[s.len() - 1] as int - '0' as int)
    }
}

} // verus!
