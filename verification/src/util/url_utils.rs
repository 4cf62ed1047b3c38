//! URL normalization and route-pattern matching.
//!
//! A route pattern is a path whose segments are matched literally, except
//! that a segment wrapped in braces, such as `{id}`, names a path variable
//! and matches any single non-empty segment.

use vstd::prelude::*;

use crate::util::strutil::{
    chars_eq, chars_of, split_chars, split_seq, string_from_chars, trim_chars, trim_seq,
    lower_seq, views_of,
};

verus! {

/// What normalizing a URL returns: the URL lower-cased, with a single
/// leading slash, and without a trailing slash unless it is the root.
pub open spec fn spec_normalize_url(s: Seq<char>) -> Seq<char> {
    let l = lower_seq(s);
    let with_lead = if l.len() == 0 || l[0] != '/' {
        seq!['/'] + l
    } else {
        l
    };
    if with_lead.len() > 1 && with_lead[with_lead.len() - 1] == '/' {
        with_lead.drop_last()
    } else {
        with_lead
    }
}

/// Normalizes a URL: lower-case, exactly one leading slash, and no trailing
/// slash unless the whole path is the root.
pub fn normalize_url(url: &str) -> (r: String)
    ensures
        r@ == spec_normalize_url(url@),
{
    let cs = chars_of(url);
    let n = cs.len();
    let mut low: Vec<char> = Vec::new();
    let mut i: usize = 0;
    while i < n
        invariant
            n == cs@.len(),
            cs@ == url@,
            i <= n,
            low@ == lower_seq(url@).take(i as int),
        decreases n - i,
    {
        let c = cs[i];
        let l = if 'A' <= c && c <= 'Z' {
            (((c as u32) + 32) as u8) as char
        } else {
            c
        };
        low.push(l);
        i = i + 1;
        proof {
            assert(low@ =~= lower_seq(url@).take(i as int));
        }
    }
    proof {
        assert(low@ =~= lower_seq(url@));
    }
    let mut out: Vec<char> = Vec::new();
    if low.len() == 0 || low[0] != '/' {
        out.push('/');
    }
    let m = low.len();
    let mut j: usize = 0;
    let ghost with_lead = if lower_seq(url@).len() == 0 || lower_seq(url@)[0] != '/' {
        seq!['/'] + lower_seq(url@)
    } else {
        lower_seq(url@)
    };
    proof {
        assert(out@ + low@ =~= with_lead);
    }
    while j < m
        invariant
            m == low@.len(),
            j <= m,
            out@ + low@.skip(j as int) == with_lead,
            out@.len() == with_lead.len() - (m - j),
        decreases m - j,
    {
        out.push(low[j]);
        j = j + 1;
        proof {
            assert(out@ + low@.skip(j as int) =~= with_lead);
        }
    }
    proof {
        assert(low@.skip(m as int) =~= Seq::<char>::empty());
        assert(out@ =~= with_lead);
    }
    if out.len() > 1 && out[out.len() - 1] == '/' {
        out.pop();
        proof {
            assert(out@ =~= with_lead.drop_last());
        }
    }
    string_from_chars(&out)
}

/// Whether a segment is blank: empty or whitespace only. Blank segments of a
/// pattern are ignored.
pub open spec fn spec_nonblank(seg: Seq<char>) -> bool {
    trim_seq(seg).len() != 0
}

/// The non-blank segments of a sequence of segments, in order.
pub open spec fn keep_nonblank(segs: Seq<Seq<char>>) -> Seq<Seq<char>>
    decreases segs.len(),
{
    if segs.len() == 0 {
        Seq::empty()
    } else {
        let rest = keep_nonblank(segs.drop_last());
        if spec_nonblank(segs.last()) {
            rest.push(segs.last())
        } else {
            rest
        }
    }
}

/// The segments of a pattern that take part in matching.
pub open spec fn pattern_segments(pattern: Seq<char>) -> Seq<Seq<char>> {
    keep_nonblank(split_seq(pattern, '/'))
}

/// A segment names a path variable when, after trimming, it is wrapped in
/// braces with at least one character between them.
pub open spec fn spec_is_var_segment(seg: Seq<char>) -> bool {
    let t = trim_seq(seg);
    t.len() >= 3 && t[0] == '{' && t[t.len() - 1] == '}'
}

/// A pattern is dynamic when it is at least three characters long and one of
/// its segments names a path variable; only dynamic patterns match by
/// segments, all others match by string equality.
pub open spec fn spec_pattern_is_dynamic(pattern: Seq<char>) -> bool {
    pattern.len() >= 3 && exists|i: int|
        0 <= i < pattern_segments(pattern).len() && spec_is_var_segment(
            pattern_segments(pattern)[i],
        )
}

/// One pattern segment against one path segment: a variable segment accepts
/// any non-empty segment, a literal segment only itself.
pub open spec fn spec_segment_match(pat: Seq<char>, seg: Seq<char>) -> bool {
    if spec_is_var_segment(pat) {
        seg.len() >= 1
    } else {
        seg == pat
    }
}

/// A dynamic pattern matches a path that starts with a slash and whose
/// slash-separated segments match the pattern's segments one for one.
pub open spec fn spec_dynamic_match(pattern: Seq<char>, path: Seq<char>) -> bool {
    let pats = pattern_segments(pattern);
    let segs = split_seq(path, '/');
    &&& path.len() >= 1
    &&& path[0] == '/'
    &&& segs.len() == pats.len() + 1
    &&& segs[0].len() == 0
    &&& forall|i: int| 0 <= i < pats.len() ==> spec_segment_match(pats[i], segs[i + 1])
}

/// Whether a normalized pattern matches a normalized path.
pub open spec fn spec_pattern_matches(pattern: Seq<char>, path: Seq<char>) -> bool {
    if spec_pattern_is_dynamic(pattern) {
        spec_dynamic_match(pattern, path)
    } else {
        path == pattern
    }
}

fn is_var_segment(seg: &Vec<char>) -> (r: bool)
    ensures
        r == spec_is_var_segment(seg@),
{
    let t = trim_chars(seg);
    t.len() >= 3 && t[0] == '{' && t[t.len() - 1] == '}'
}

/// The non-blank segments of a pattern.
fn nonblank_segments(cs: &Vec<char>) -> (r: Vec<Vec<char>>)
    ensures
        views_of(r@) == keep_nonblank(split_seq(cs@, '/')),
{
    let pieces = split_chars(cs, '/');
    let ghost all = views_of(pieces@);
    let mut kept: Vec<Vec<char>> = Vec::new();
    let mut i: usize = 0;
    proof {
        assert(all.take(0) =~= Seq::<Seq<char>>::empty());
        assert(views_of(kept@) =~= keep_nonblank(all.take(0)));
    }
    while i < pieces.len()
        invariant
            all == views_of(pieces@),
            i <= pieces@.len(),
            views_of(kept@) == keep_nonblank(all.take(i as int)),
        decreases pieces@.len() - i,
    {
        let t = trim_chars(&pieces[i]);
        proof {
            assert(all.take(i + 1).drop_last() =~= all.take(i as int));
            assert(all.take(i + 1).last() == pieces@[i as int]@);
        }
        if t.len() != 0 {
            let ghost kept_pre = kept@;
            let piece = pieces[i].clone();
            proof {
                assert(piece@ == pieces@[i as int]@);
            }
            kept.push(piece);
            proof {
                assert(views_of(kept@) =~= views_of(kept_pre).push(pieces@[i as int]@));
            }
        }
        i = i + 1;
    }
    proof {
        assert(all.take(pieces@.len() as int) =~= all);
    }
    kept
}

/// Whether the pattern is dynamic, that is, matches by segments because it
/// holds a path variable.
pub fn url_pattern_is_dynamic(pattern: &str) -> (r: bool)
    ensures
        r == spec_pattern_is_dynamic(pattern@),
{
    if pattern.unicode_len() < 3 {
        return false;
    }
    let cs = chars_of(pattern);
    let pats = nonblank_segments(&cs);
    let ghost pseq = pattern_segments(pattern@);
    let mut i: usize = 0;
    while i < pats.len()
        invariant
            views_of(pats@) == pseq,
            pseq == pattern_segments(pattern@),
            pattern@.len() >= 3,
            i <= pats@.len(),
            forall|j: int| 0 <= j < i ==> !spec_is_var_segment(pseq[j]),
        decreases pats@.len() - i,
    {
        if is_var_segment(&pats[i]) {
            proof {
                assert(pseq[i as int] == pats@[i as int]@);
                assert((i as int) < pattern_segments(pattern@).len());
                assert(spec_is_var_segment(pattern_segments(pattern@)[i as int]));
            }
            return true;
        }
        proof {
            assert(pseq[i as int] == pats@[i as int]@);
        }
        i = i + 1;
    }
    false
}

/// Whether a normalized route pattern matches a normalized request path.
pub fn url_pattern_matches(pattern: &str, path: &str) -> (r: bool)
    ensures
        r == spec_pattern_matches(pattern@, path@),
{
    if !url_pattern_is_dynamic(pattern) {
        return crate::util::strutil::str_eq(path, pattern);
    }
    let pcs = chars_of(pattern);
    let pats = nonblank_segments(&pcs);
    let ghost pseq = pattern_segments(pattern@);
    let scs = chars_of(path);
    if scs.len() == 0 || scs[0] != '/' {
        return false;
    }
    let segs = split_chars(&scs, '/');
    let ghost sseq = split_seq(path@, '/');
    if segs.len() == 0 {
        return false;
    }
    if segs.len() - 1 != pats.len() {
        return false;
    }
    proof {
        assert(sseq[0] == segs@[0]@);
    }
    if segs[0].len() != 0 {
        return false;
    }
    let mut i: usize = 0;
    while i < pats.len()
        invariant
            views_of(pats@) == pseq,
            views_of(segs@) == sseq,
            sseq.len() == pseq.len() + 1,
            pseq == pattern_segments(pattern@),
            sseq == split_seq(path@, '/'),
            spec_pattern_is_dynamic(pattern@),
            i <= pats@.len(),
            forall|j: int| 0 <= j < i ==> spec_segment_match(pseq[j], sseq[j + 1]),
        decreases pats@.len() - i,
    {
        proof {
            assert(pseq[i as int] == pats@[i as int]@);
            assert(sseq[i + 1] == segs@[i + 1]@);
        }
        if is_var_segment(&pats[i]) {
            if segs[i + 1].len() == 0 {
                proof {
                    assert(!spec_segment_match(pseq[i as int], sseq[i + 1]));
                }
                return false;
            }
        } else {
            if !chars_eq(&segs[i + 1], &pats[i]) {
                proof {
                    assert(!spec_segment_match(pseq[i as int], sseq[i + 1]));
                }
                return false;
            }
        }
        i = i + 1;
    }
    true
}

} // verus!
