//! The cookie store: a map from cookie name to the ordered list of raw
//! cookie strings under that name, since the same name may repeat. Adding
//! appends; replacing truncates the list to one entry.

use vstd::prelude::*;

use crate::util::keymap::{
    lemma_index_of_key_none, lemma_index_of_key_props, lemma_index_of_key_witness,
    spec_distinct_keys, spec_index_of_key, spec_lookup,
};
use crate::util::strutil::str_eq;

verus! {

/// The views of a list of strings.
pub open spec fn strs_views(l: Seq<String>) -> Seq<Seq<char>> {
    Seq::new(l.len(), |i: int| l[i]@)
}

/// The mathematical content of a cookie store.
pub type SpecCookies = Seq<(Seq<char>, Seq<Seq<char>>)>;

/// What parsing a cookie string returns: the cookie's name and its canonical
/// text, both functions of the string alone; nothing for a string that is
/// not a cookie.
pub uninterp spec fn cookie_parse_of(s: Seq<char>) -> Option<(Seq<char>, Seq<char>)>;

/// Relies on `cookie::Cookie::parse`, `Cookie::name` and the cookie's
/// `Display` form: whether a string parses, the parsed cookie's name, and
/// its canonical text each depend on the string alone.
#[verifier::external_body]
fn parse_cookie_parts(s: &str) -> (r: Option<(String, String)>)
    ensures
        (r is Some) == (cookie_parse_of(s@) is Some),
        r matches Some(p) ==> cookie_parse_of(s@) == Some((p.0@, p.1@)),
{
    match cookie::Cookie::parse(s) {
        Ok(c) => {
            let name = c.name().to_string();
            Some((name, c.to_string()))
        },
        Err(_) => None,
    }
}

/// Appending one value under a key: a new key opens an entry at the end.
pub open spec fn spec_cookies_append(m: SpecCookies, k: Seq<char>, v: Seq<char>) -> SpecCookies {
    match spec_index_of_key(m, k) {
        None => m.push((k, seq![v])),
        Some(i) => m.update(i, (m[i].0, m[i].1.push(v))),
    }
}

/// Replacing a key's values with the one given.
pub open spec fn spec_cookies_replace(m: SpecCookies, k: Seq<char>, v: Seq<char>) -> SpecCookies {
    match spec_index_of_key(m, k) {
        None => m.push((k, seq![v])),
        Some(i) => m.update(i, (m[i].0, seq![v])),
    }
}

/// Well-formedness: one entry per name, none empty.
pub open spec fn spec_cookies_wf(m: SpecCookies) -> bool {
    &&& spec_distinct_keys(m)
    &&& forall|i: int| 0 <= i < m.len() ==> (#[trigger] m[i]).1.len() >= 1
}

/// The canonical texts of the stored strings that parse as cookies, in
/// order.
pub open spec fn spec_parsed_cookies(l: Seq<Seq<char>>) -> Seq<Seq<char>>
    decreases l.len(),
{
    if l.len() == 0 {
        Seq::empty()
    } else {
        let rest = spec_parsed_cookies(l.drop_last());
        match cookie_parse_of(l.last()) {
            Some(p) => rest.push(p.1),
            None => rest,
        }
    }
}

/// The cookie store of one request or response.
pub struct Cookies {
    cookies: Vec<(String, Vec<String>)>,
}

impl View for Cookies {
    type V = SpecCookies;

    closed spec fn view(&self) -> SpecCookies {
        Seq::new(self.cookies@.len(), |i: int| (self.cookies@[i].0@, strs_views(self.cookies@[i].1@)))
    }
}

impl Cookies {
    /// An empty store.
    pub fn new() -> (r: Self)
        ensures
            r@ =~= Seq::<(Seq<char>, Seq<Seq<char>>)>::empty(),
            spec_cookies_wf(r@),
    {
        Self { cookies: Vec::new() }
    }

    /// Index of the entry named `key`.
    fn find_index(&self, key: &str) -> (r: Option<usize>)
        ensures
            spec_index_of_key(self@, key@) == match r {
                Some(i) => Some(i as int),
                None => None::<int>,
            },
    {
        let n = self.cookies.len();
        let mut i: usize = 0;
        while i < n
            invariant
                n == self.cookies@.len(),
                n == self@.len(),
                i <= n,
                forall|j: int| 0 <= j < i ==> (#[trigger] self@[j]).0 != key@,
                forall|j: int| 0 <= j < n ==> (#[trigger] self@[j]).0 == self.cookies@[j].0@,
            decreases n - i,
        {
            if str_eq(self.cookies[i].0.as_str(), key) {
                proof {
                    lemma_index_of_key_witness(self@, key@, i as int);
                }
                return Some(i);
            }
            i = i + 1;
        }
        proof {
            lemma_index_of_key_none(self@, key@);
        }
        None
    }

    /// Parses a cookie string and appends it under the cookie's name;
    /// rejects a string that is not a cookie and changes nothing then.
    pub fn add_cookie(&mut self, str_cookie: &str) -> (r: Result<(), ()>)
        requires
            spec_cookies_wf(old(self)@),
        ensures
            r is Ok <==> cookie_parse_of(str_cookie@) is Some,
            r is Ok ==> final(self)@ == spec_cookies_append(
                old(self)@,
                cookie_parse_of(str_cookie@)->Some_0.0,
                cookie_parse_of(str_cookie@)->Some_0.1,
            ),
            r is Err ==> final(self)@ == old(self)@,
            spec_cookies_wf(final(self)@),
    {
        match parse_cookie_parts(str_cookie) {
            Some((name, text)) => {
                self.append_value(name, text);
                Ok(())
            },
            None => Err(()),
        }
    }

    /// Parses a cookie string and replaces everything under the cookie's
    /// name with it; rejects a string that is not a cookie.
    pub fn replace_cookie(&mut self, str_cookie: &str) -> (r: Result<(), ()>)
        requires
            spec_cookies_wf(old(self)@),
        ensures
            r is Ok <==> cookie_parse_of(str_cookie@) is Some,
            r is Ok ==> final(self)@ == spec_cookies_replace(
                old(self)@,
                cookie_parse_of(str_cookie@)->Some_0.0,
                cookie_parse_of(str_cookie@)->Some_0.1,
            ),
            r is Err ==> final(self)@ == old(self)@,
            spec_cookies_wf(final(self)@),
    {
        match parse_cookie_parts(str_cookie) {
            Some((name, text)) => {
                let ghost pre = self@;
                proof {
                    lemma_index_of_key_props(pre, name@);
                }
                match self.find_index(name.as_str()) {
                    Some(i) => {
                        let entry = self.cookies.remove(i);
                        let line: Vec<String> = vec![text];
                        self.cookies.insert(i, (entry.0, line));
                        proof {
                            assert(strs_views(self.cookies@[i as int].1@) =~= seq![text@]);
                            assert(self@ =~= pre.update(
                                i as int,
                                (pre[i as int].0, seq![text@]),
                            ));
                        }
                    },
                    None => {
                        let line: Vec<String> = vec![text];
                        self.cookies.push((name, line));
                        proof {
                            assert(strs_views(self.cookies@.last().1@) =~= seq![
                                self.cookies@.last().1@[0]@,
                            ]);
                            assert(self@ =~= pre.push((self@.last().0, self@.last().1)));
                        }
                    },
                }
                Ok(())
            },
            None => Err(()),
        }
    }

    /// Appends one raw value under a name.
    fn append_value(&mut self, name: String, text: String)
        requires
            spec_cookies_wf(old(self)@),
        ensures
            final(self)@ == spec_cookies_append(old(self)@, name@, text@),
            spec_cookies_wf(final(self)@),
    {
        let ghost pre = self@;
        proof {
            lemma_index_of_key_props(pre, name@);
        }
        match self.find_index(name.as_str()) {
            Some(i) => {
                let mut entry = self.cookies.remove(i);
                entry.1.push(text);
                self.cookies.insert(i, entry);
                proof {
                    assert(strs_views(self.cookies@[i as int].1@) =~= pre[i as int].1.push(
                        text@,
                    ));
                    assert(self@ =~= pre.update(
                        i as int,
                        (pre[i as int].0, pre[i as int].1.push(text@)),
                    ));
                }
            },
            None => {
                let line: Vec<String> = vec![text];
                self.cookies.push((name, line));
                proof {
                    assert(strs_views(self.cookies@.last().1@) =~= seq![
                        self.cookies@.last().1@[0]@,
                    ]);
                    assert(self@ =~= pre.push((self@.last().0, self@.last().1)));
                }
            },
        }
    }

    /// The canonical text of the first cookie stored under `name`, where
    /// that stored string still parses.
    pub fn find_first_by_name(&self, name: &str) -> (r: Option<String>)
        requires
            spec_cookies_wf(self@),
        ensures
            match spec_lookup(self@, name@) {
                None => r is None,
                Some(l) => match cookie_parse_of(l[0]) {
                    Some(p) => r matches Some(s) && s@ == p.1,
                    None => r is None,
                },
            },
    {
        match self.find_index(name) {
            Some(i) => {
                proof {
                    lemma_index_of_key_props(self@, name@);
                    assert(self@[i as int].1[0] == self.cookies@[i as int].1@[0]@);
                }
                match parse_cookie_parts(self.cookies[i].1[0].as_str()) {
                    Some((_, text)) => Some(text),
                    None => None,
                }
            },
            None => None,
        }
    }

    /// The canonical texts of every cookie stored under `name` that parses,
    /// in storage order.
    pub fn find_all_by_name(&self, name: &str) -> (r: Vec<String>)
        requires
            spec_cookies_wf(self@),
        ensures
            strs_views(r@) == match spec_lookup(self@, name@) {
                None => Seq::<Seq<char>>::empty(),
                Some(l) => spec_parsed_cookies(l),
            },
    {
        let mut ret: Vec<String> = Vec::new();
        match self.find_index(name) {
            Some(i) => {
                proof {
                    lemma_index_of_key_props(self@, name@);
                }
                let ghost l = self@[i as int].1;
                let m = self.cookies[i].1.len();
                let mut k: usize = 0;
                proof {
                    assert(l.take(0) =~= Seq::<Seq<char>>::empty());
                    assert(strs_views(ret@) =~= spec_parsed_cookies(l.take(0)));
                }
                while k < m
                    invariant
                        i < self.cookies@.len(),
                        l == self@[i as int].1,
                        i < self@.len(),
                        m == self.cookies@[i as int].1@.len(),
                        m == l.len(),
                        k <= m,
                        strs_views(ret@) == spec_parsed_cookies(l.take(k as int)),
                    decreases m - k,
                {
                    proof {
                        assert(l.take(k + 1).drop_last() =~= l.take(k as int));
                        assert(l[k as int] == self.cookies@[i as int].1@[k as int]@);
                    }
                    match parse_cookie_parts(self.cookies[i].1[k].as_str()) {
                        Some((_, text)) => {
                            let ghost ret_pre = ret@;
                            ret.push(text);
                            proof {
                                assert(strs_views(ret@) =~= strs_views(ret_pre).push(
                                    ret@.last()@,
                                ));
                                assert(strs_views(ret@) =~= spec_parsed_cookies(l.take(k + 1)));
                            }
                        },
                        None => {},
                    }
                    k = k + 1;
                }
                proof {
                    assert(l.take(m as int) =~= l);
                }
            },
            None => {},
        }
        ret
    }

    /// An exact copy of the store.
    pub fn duplicate(&self) -> (r: Cookies)
        ensures
            r@ == self@,
    {
        let n = self.cookies.len();
        let mut cs: Vec<(String, Vec<String>)> = Vec::new();
        let mut i: usize = 0;
        while i < n
            invariant
                n == self.cookies@.len(),
                i <= n,
                cs@.len() == i,
                forall|j: int|
                    0 <= j < i ==> (#[trigger] cs@[j]).0@ == self.cookies@[j].0@ && strs_views(
                        cs@[j].1@,
                    ) == strs_views(self.cookies@[j].1@),
            decreases n - i,
        {
            let name = self.cookies[i].0.clone();
            let m = self.cookies[i].1.len();
            let mut line: Vec<String> = Vec::new();
            let mut k: usize = 0;
            while k < m
                invariant
                    m == self.cookies@[i as int].1@.len(),
                    i < self.cookies@.len(),
                    k <= m,
                    strs_views(line@) == strs_views(self.cookies@[i as int].1@).take(k as int),
                decreases m - k,
            {
                let ghost line_pre = line@;
                line.push(self.cookies[i].1[k].clone());
                k = k + 1;
                proof {
                    assert(strs_views(line@) =~= strs_views(line_pre).push(line@.last()@));
                    assert(strs_views(line@) =~= strs_views(self.cookies@[i as int].1@).take(
                        k as int,
                    ));
                }
            }
            proof {
                assert(strs_views(line@) =~= strs_views(self.cookies@[i as int].1@));
            }
            cs.push((name, line));
            i = i + 1;
        }
        let r = Cookies { cookies: cs };
        proof {
            assert(r@ =~= self@);
        }
        r
    }

    /// An iterator over the first value of each entry, in entry order.
    pub fn iter(&self) -> (r: CookiesIterator)
        requires
            spec_cookies_wf(self@),
        ensures
            r.pos == 0,
            strs_views(r.items@) == spec_cookie_firsts(self@),
    {
        let n = self.cookies.len();
        let mut items: Vec<String> = Vec::new();
        let mut i: usize = 0;
        while i < n
            invariant
                n == self.cookies@.len(),
                spec_cookies_wf(self@),
                i <= n,
                strs_views(items@) == spec_cookie_firsts(self@).take(i as int),
            decreases n - i,
        {
            proof {
                assert(self@[i as int].1.len() >= 1);
            }
            let ghost items_pre = items@;
            items.push(self.cookies[i].1[0].clone());
            i = i + 1;
            proof {
                assert(strs_views(items@) =~= strs_views(items_pre).push(items@.last()@));
                assert(strs_views(items@) =~= spec_cookie_firsts(self@).take(i as int));
            }
        }
        proof {
            assert(strs_views(items@) =~= spec_cookie_firsts(self@));
        }
        CookiesIterator { items, pos: 0 }
    }

    /// An iterator over the whole value list of each entry, in entry order.
    pub fn iter_all(&self) -> (r: CookiesIteratorAll)
        ensures
            r.pos == 0,
            strs_list_views(r.items@) == spec_cookie_lists(self@),
    {
        let n = self.cookies.len();
        let mut items: Vec<Vec<String>> = Vec::new();
        let mut i: usize = 0;
        while i < n
            invariant
                n == self.cookies@.len(),
                i <= n,
                strs_list_views(items@) == spec_cookie_lists(self@).take(i as int),
            decreases n - i,
        {
            let m = self.cookies[i].1.len();
            let mut line: Vec<String> = Vec::new();
            let mut k: usize = 0;
            while k < m
                invariant
                    m == self.cookies@[i as int].1@.len(),
                    i < self.cookies@.len(),
                    k <= m,
                    strs_views(line@) == strs_views(self.cookies@[i as int].1@).take(k as int),
                decreases m - k,
            {
                let ghost line_pre = line@;
                line.push(self.cookies[i].1[k].clone());
                k = k + 1;
                proof {
                    assert(strs_views(line@) =~= strs_views(line_pre).push(line@.last()@));
                    assert(strs_views(line@) =~= strs_views(self.cookies@[i as int].1@).take(
                        k as int,
                    ));
                }
            }
            proof {
                assert(strs_views(line@) =~= strs_views(self.cookies@[i as int].1@));
            }
            let ghost items_pre = items@;
            items.push(line);
            i = i + 1;
            proof {
                assert(strs_list_views(items@) =~= strs_list_views(items_pre).push(strs_views(
                    items@.last()@,
                )));
                assert(strs_list_views(items@) =~= spec_cookie_lists(self@).take(i as int));
            }
        }
        proof {
            assert(strs_list_views(items@) =~= spec_cookie_lists(self@));
        }
        CookiesIteratorAll { items, pos: 0 }
    }
}

/// The first value of each entry, in order.
pub open spec fn spec_cookie_firsts(m: SpecCookies) -> Seq<Seq<char>> {
    Seq::new(m.len(), |i: int| m[i].1[0])
}

/// The value list of each entry, in order.
pub open spec fn spec_cookie_lists(m: SpecCookies) -> Seq<Seq<Seq<char>>> {
    Seq::new(m.len(), |i: int| m[i].1)
}

/// The views of a list of string lists.
pub open spec fn strs_list_views(v: Seq<Vec<String>>) -> Seq<Seq<Seq<char>>> {
    Seq::new(v.len(), |i: int| strs_views(v[i]@))
}

/// Walks the first value of each cookie entry.
pub struct CookiesIterator {
    pub items: Vec<String>,
    pub pos: usize,
}

impl CookiesIterator {
    /// The next first value, if one is left.
    pub fn next(&mut self) -> (r: Option<String>)
        ensures
            final(self).items@ == old(self).items@,
            old(self).pos < old(self).items@.len() ==> final(self).pos == old(self).pos + 1 && (
            r matches Some(s) && s@ == old(self).items@[old(self).pos as int]@),
            old(self).pos >= old(self).items@.len() ==> final(self).pos == old(self).pos
                && r is None,
    {
        if self.pos < self.items.len() {
            let s = self.items[self.pos].clone();
            self.pos = self.pos + 1;
            Some(s)
        } else {
            None
        }
    }
}

/// Walks the whole value list of each cookie entry.
pub struct CookiesIteratorAll {
    pub items: Vec<Vec<String>>,
    pub pos: usize,
}

impl CookiesIteratorAll {
    /// The next entry's values, if one is left.
    pub fn next(&mut self) -> (r: Option<Vec<String>>)
        ensures
            final(self).items@ == old(self).items@,
            old(self).pos < old(self).items@.len() ==> final(self).pos == old(self).pos + 1 && (
            r matches Some(l) && strs_views(l@) == strs_views(
                old(self).items@[old(self).pos as int]@,
            )),
            old(self).pos >= old(self).items@.len() ==> final(self).pos == old(self).pos
                && r is None,
    {
        if self.pos < self.items.len() {
            let m = self.items[self.pos].len();
            let ghost src = self.items@[self.pos as int]@;
            let mut line: Vec<String> = Vec::new();
            let mut k: usize = 0;
            while k < m
                invariant
                    m == src.len(),
                    src == self.items@[self.pos as int]@,
                    self.pos < self.items@.len(),
                    k <= m,
                    strs_views(line@) == strs_views(src).take(k as int),
                decreases m - k,
            {
                let ghost line_pre = line@;
                line.push(self.items[self.pos][k].clone());
                k = k + 1;
                proof {
                    assert(strs_views(line@) =~= strs_views(line_pre).push(line@.last()@));
                    assert(strs_views(line@) =~= strs_views(src).take(k as int));
                }
            }
            proof {
                assert(strs_views(line@) =~= strs_views(src));
            }
            self.pos = self.pos + 1;
            Some(line)
        } else {
            None
        }
    }
}

} // verus!
