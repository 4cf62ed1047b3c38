//! Normalizing the home directory path that configuration files are
//! resolved against: however many separators the configured value ends
//! with, the normalized path ends with exactly one.

use vstd::prelude::*;

verus! {

/// The path without its trailing separators.
pub open spec fn drop_trailing_separators(s: Seq<char>) -> Seq<char>
    decreases s.len(),
{
    if s.len() > 0 && s[s.len() - 1] == '/' {
        drop_trailing_separators(s.drop_last())
    } else {
        s
    }
}

/// Normalizes a directory path to end with exactly one separator.
pub fn normalize_path(path: String) -> (r: String)
    ensures
        r@ == drop_trailing_separators(path@) + seq!['/'],
{
    let cs = crate::util::strutil::chars_of(path.as_str());
    let n = cs.len();
    let mut end: usize = n;
    proof {
        assert(cs@.take(n as int) =~= cs@);
    }
    while end > 0 && cs[end - 1] == '/'
        invariant
            n == cs@.len(),
            end <= n,
            drop_trailing_separators(cs@) == drop_trailing_separators(cs@.take(end as int)),
        decreases end,
    {
        end = end - 1;
        proof {
            assert(cs@.take(end + 1).drop_last() =~= cs@.take(end as int));
        }
    }
    let mut out: Vec<char> = Vec::new();
    let mut i: usize = 0;
    while i < end
        invariant
            end <= n,
            n == cs@.len(),
            i <= end,
            out@ == cs@.take(end as int).take(i as int),
        decreases end - i,
    {
        out.push(cs[i]);
        i = i + 1;
        proof {
            assert(out@ =~= cs@.take(end as int).take(i as int));
        }
    }
    proof {
        assert(out@ =~= cs@.take(end as int));
        assert(drop_trailing_separators(cs@.take(end as int)) =~= cs@.take(end as int));
    }
    out.push('/');
    proof {
        assert(out@ =~= drop_trailing_separators(path@) + seq!['/']);
    }
    crate::util::strutil::string_from_chars(&out)
}

} // verus!
