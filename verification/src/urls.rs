use vstd::prelude::*;
use vstd::string::*;
use crate::text::{escape, escape_spec, str_eq};

verus! {

/// Ghost form of the parts read off a parsed URL.
pub ghost struct UrlView {
    /// The URL serialized back to a string.
    pub serialized: Seq<char>,
    /// The unicode serialization of the URL's origin.
    pub origin: Seq<char>,
    /// The host part, if the URL has one.
    pub host: Option<Seq<char>>,
    /// The path part.
    pub path: Seq<char>,
    /// The query string, without the `?`, if present.
    pub query: Option<Seq<char>>,
}

/// The parts read off one absolute URL: what the scanner needs from a
/// parsed request target or referer.
pub struct UrlParts {
    pub serialized: String,
    pub origin_serialized: String,
    pub host: Option<String>,
    pub path: String,
    pub query: Option<String>,
}

impl View for UrlParts {
    type V = UrlView;

    open spec fn view(&self) -> UrlView {
        UrlView {
            serialized: self.serialized@,
            origin: self.origin_serialized@,
            host: match self.host {
                Some(h) => Some(h@),
                None => None,
            },
            path: self.path@,
            query: match self.query {
                Some(q) => Some(q@),
                None => None,
            },
        }
    }
}

/// What parsing `s` as an absolute URL yields, if it parses.
pub uninterp spec fn parsed_url_of(s: Seq<char>) -> Option<UrlView>;

/// What resolving the reference `rel` against the base URL `base`
/// yields, if base parses and the resolution succeeds.
pub uninterp spec fn joined_url_of(base: Seq<char>, rel: Seq<char>) -> Option<UrlView>;

/// The decoded key/value pairs of a query string, in order.
pub uninterp spec fn form_pairs_of(q: Seq<char>) -> Seq<(Seq<char>, Seq<char>)>;

/// The views of a sequence of owned string pairs.
pub open spec fn pairs_view(v: Seq<(String, String)>) -> Seq<(Seq<char>, Seq<char>)> {
    v.map_values(|p: (String, String)| (p.0@, p.1@))
}

/// Relies on `url::Url::parse` and the accessors `as_str`, `origin`
/// (unicode-serialized), `host_str`, `path` and `query`: the parts of
/// the URL that `s` parses to, if it parses.
#[verifier::external_body]
pub fn parse_url_parts(s: &str) -> (r: Option<UrlParts>)
    ensures
        match r {
            Some(p) => parsed_url_of(s@) == Some(p@),
            None => parsed_url_of(s@) is None,
        },
{
    let u = match url::Url::parse(s) {
        Ok(u) => u,
        Err(_) => return None,
    };
    Some(UrlParts {
        serialized: u.as_str().to_string(),
        origin_serialized: u.origin().unicode_serialization(),
        host: u.host_str().map(|h| h.to_string()),
        path: u.path().to_string(),
        query: u.query().map(|q| q.to_string()),
    })
}

/// Relies on `url::Url::join` (after `url::Url::parse` of the base)
/// and the same accessors: the parts of the URL that `rel` resolves to
/// against `base`, if both steps succeed.
#[verifier::external_body]
pub fn join_url_parts(base: &str, rel: &str) -> (r: Option<UrlParts>)
    ensures
        match r {
            Some(p) => joined_url_of(base@, rel@) == Some(p@),
            None => joined_url_of(base@, rel@) is None,
        },
{
    let b = match url::Url::parse(base) {
        Ok(u) => u,
        Err(_) => return None,
    };
    let u = match b.join(rel) {
        Ok(u) => u,
        Err(_) => return None,
    };
    Some(UrlParts {
        serialized: u.as_str().to_string(),
        origin_serialized: u.origin().unicode_serialization(),
        host: u.host_str().map(|h| h.to_string()),
        path: u.path().to_string(),
        query: u.query().map(|q| q.to_string()),
    })
}

/// Relies on `url::form_urlencoded::parse`: the decoded key/value
/// pairs of a query string, in order of occurrence.
#[verifier::external_body]
pub fn parse_form_pairs(q: &str) -> (r: Vec<(String, String)>)
    ensures
        pairs_view(r@) == form_pairs_of(q@),
{
    url::form_urlencoded::parse(q.as_bytes()).into_owned().collect()
}

/// The last-value-wins map denoted by a pair sequence.
pub open spec fn map_of_pairs(pairs: Seq<(Seq<char>, Seq<char>)>) -> Map<Seq<char>, Seq<char>>
    decreases pairs.len(),
{
    if pairs.len() == 0 {
        Map::empty()
    } else {
        map_of_pairs(pairs.drop_last()).insert(pairs.last().0, pairs.last().1)
    }
}

/// A key is in the map exactly when some pair carries it.
pub proof fn lemma_map_of_pairs_domain(pairs: Seq<(Seq<char>, Seq<char>)>, k: Seq<char>)
    ensures
        map_of_pairs(pairs).contains_key(k) <==> exists|j: int|
            0 <= j < pairs.len() && pairs[j].0 == k,
    decreases pairs.len(),
{
    if pairs.len() > 0 {
        lemma_map_of_pairs_domain(pairs.drop_last(), k);
        if pairs.last().0 == k {
            assert(pairs[pairs.len() - 1].0 == k);
        } else if map_of_pairs(pairs.drop_last()).contains_key(k) {
            let j = choose|j: int| 0 <= j < pairs.len() - 1 && pairs.drop_last()[j].0 == k;
            assert(pairs[j].0 == k);
        } else if exists|j: int| 0 <= j < pairs.len() && pairs[j].0 == k {
            let j = choose|j: int| 0 <= j < pairs.len() && pairs[j].0 == k;
            assert(j < pairs.len() - 1 ==> pairs.drop_last()[j].0 == k);
        }
    }
}

/// With pairwise distinct keys, the pair carrying a key gives its
/// mapped value.
pub proof fn lemma_map_of_pairs_at(pairs: Seq<(Seq<char>, Seq<char>)>, j: int)
    requires
        0 <= j < pairs.len(),
        forall|a: int, b: int|
            0 <= a < b < pairs.len() ==> (#[trigger] pairs[a]).0 != (#[trigger] pairs[b]).0,
    ensures
        map_of_pairs(pairs).contains_key(pairs[j].0),
        map_of_pairs(pairs)[pairs[j].0] == pairs[j].1,
    decreases pairs.len(),
{
    if j == pairs.len() - 1 {
    } else {
        lemma_map_of_pairs_at(pairs.drop_last(), j);
        assert(pairs.drop_last()[j] == pairs[j]);
        assert(pairs[j].0 != pairs[pairs.len() - 1].0);
    }
}

/// A parsed query: a key-to-value map with unique keys, the value of
/// each key being the last one given for it.
#[derive(Debug)]
pub struct QueryMap {
    entries: Vec<(String, String)>,
}

impl View for QueryMap {
    type V = Map<Seq<char>, Seq<char>>;

    closed spec fn view(&self) -> Map<Seq<char>, Seq<char>> {
        map_of_pairs(pairs_view(self.entries@))
    }
}

/// True when some entry of `v` carries the key `k`.
fn pairs_contain(v: &Vec<(String, String)>, k: &str) -> (r: bool)
    ensures
        r == exists|j: int| 0 <= j < v@.len() && (#[trigger] v@[j]).0@ == k@,
{
    let n = v.len();
    let mut i: usize = 0;
    while i < n
        invariant
            i <= n,
            n == v@.len(),
            forall|j: int| 0 <= j < i ==> (#[trigger] v@[j]).0@ != k@,
        decreases n - i,
    {
        if str_eq(v[i].0.as_str(), k) {
            return true;
        }
        i += 1;
    }
    false
}

impl QueryMap {
    /// The entries, in the order this map stores them.
    pub closed spec fn entries_view(&self) -> Seq<(Seq<char>, Seq<char>)> {
        pairs_view(self.entries@)
    }

    /// Keys are pairwise distinct.
    pub closed spec fn wf(&self) -> bool {
        forall|a: int, b: int|
            0 <= a < b < self.entries_view().len() ==> (#[trigger] self.entries_view()[a]).0
                != (#[trigger] self.entries_view()[b]).0
    }

    /// Build the last-value-wins map of a decoded pair sequence.
    pub fn from_pairs(pairs: &Vec<(String, String)>) -> (r: QueryMap)
        ensures
            r@ == map_of_pairs(pairs_view(pairs@)),
            r.wf(),
    {
        let ghost full = pairs_view(pairs@);
        let mut out: Vec<(String, String)> = Vec::new();
        let mut i: usize = pairs.len();
        proof {
            assert(full.subrange(0, i as int) =~= full);
            assert(map_of_pairs(full).union_prefer_right(map_of_pairs(pairs_view(out@)))
                =~= map_of_pairs(full));
        }
        while i > 0
            invariant
                i <= pairs@.len(),
                full == pairs_view(pairs@),
                map_of_pairs(full.subrange(0, i as int)).union_prefer_right(
                    map_of_pairs(pairs_view(out@)),
                ) == map_of_pairs(full),
                forall|a: int, b: int|
                    0 <= a < b < out@.len() ==> (#[trigger] out@[a]).0@ != (#[trigger] out@[b]).0@,
                forall|j: int|
                    0 <= j < out@.len() ==> map_of_pairs(pairs_view(out@)).contains_key(
                        (#[trigger] out@[j]).0@,
                    ),
            decreases i,
        {
            i -= 1;
            let ghost pre = full.subrange(0, i + 1);
            let ghost cur = full.subrange(0, i as int);
            let ghost mr = map_of_pairs(pairs_view(out@));
            proof {
                assert(pre.drop_last() =~= cur);
                assert(pre.last() == full[i as int]);
            }
            let k = pairs[i].0.clone();
            let v = pairs[i].1.clone();
            if pairs_contain(&out, k.as_str()) {
                proof {
                    let j = choose|j: int| 0 <= j < out@.len() && (#[trigger] out@[j]).0@ == k@;
                    assert(mr.contains_key(k@));
                    assert(map_of_pairs(cur).union_prefer_right(mr) =~= map_of_pairs(
                        pre,
                    ).union_prefer_right(mr));
                }
            } else {
                let ghost old_out = out@;
                out.push((k, v));
                proof {
                    assert(pairs_view(out@).drop_last() =~= pairs_view(old_out));
                    assert(map_of_pairs(pairs_view(out@)) =~= mr.insert(
                        full[i as int].0,
                        full[i as int].1,
                    ));
                    lemma_map_of_pairs_domain(pairs_view(old_out), full[i as int].0);
                    assert(!mr.contains_key(full[i as int].0));
                    assert(map_of_pairs(cur).union_prefer_right(mr.insert(
                        full[i as int].0,
                        full[i as int].1,
                    )) =~= map_of_pairs(pre).union_prefer_right(mr));
                    assert forall|j: int| 0 <= j < out@.len() implies map_of_pairs(
                        pairs_view(out@),
                    ).contains_key((#[trigger] out@[j]).0@) by {
                        lemma_map_of_pairs_domain(pairs_view(out@), out@[j].0@);
                    }
                }
            }
        }
        proof {
            assert(full.subrange(0, 0) =~= Seq::<(Seq<char>, Seq<char>)>::empty());
            assert(map_of_pairs(pairs_view(out@)) =~= map_of_pairs(full));
        }
        QueryMap { entries: out }
    }

    /// The value stored for `key`, if the map has it.
    pub fn get(&self, key: &str) -> (r: Option<&String>)
        requires
            self.wf(),
        ensures
            match r {
                Some(v) => self@.contains_key(key@) && self@[key@] == v@,
                None => !self@.contains_key(key@),
            },
    {
        let n = self.entries.len();
        let mut i: usize = 0;
        while i < n
            invariant
                i <= n,
                n == self.entries@.len(),
                self.wf(),
                forall|j: int| 0 <= j < i ==> (#[trigger] self.entries@[j]).0@ != key@,
            decreases n - i,
        {
            if str_eq(self.entries[i].0.as_str(), key) {
                proof {
                    lemma_map_of_pairs_at(self.entries_view(), i as int);
                }
                return Some(&self.entries[i].1);
            }
            i += 1;
        }
        proof {
            lemma_map_of_pairs_domain(self.entries_view(), key@);
        }
        None
    }

    /// The stored entries, each key once, in storage order.
    pub fn entries(&self) -> (r: &Vec<(String, String)>)
        ensures
            pairs_view(r@) == self.entries_view(),
    {
        &self.entries
    }

    /// How many keys the map holds.
    pub fn len(&self) -> (r: usize)
        requires
            self.wf(),
        ensures
            r == self.entries_view().len(),
    {
        self.entries.len()
    }
}

/// The map a query map denotes is exactly the last-wins map of its
/// stored entries.
pub proof fn lemma_query_map_entries(m: &QueryMap)
    ensures
        m@ == map_of_pairs(m.entries_view()),
{
}

/// With pairwise distinct keys, the map holds exactly one key per
/// entry.
pub proof fn lemma_map_of_pairs_len(pairs: Seq<(Seq<char>, Seq<char>)>)
    requires
        forall|a: int, b: int|
            0 <= a < b < pairs.len() ==> (#[trigger] pairs[a]).0 != (#[trigger] pairs[b]).0,
    ensures
        map_of_pairs(pairs).dom().finite(),
        map_of_pairs(pairs).dom().len() == pairs.len(),
    decreases pairs.len(),
{
    broadcast use vstd::set::axiom_set_insert_len, vstd::set::axiom_set_insert_finite;

    if pairs.len() == 0 {
        assert(map_of_pairs(pairs).dom() =~= Set::<Seq<char>>::empty());
    } else {
        let head = pairs.drop_last();
        let k = pairs.last().0;
        assert forall|a: int, b: int| 0 <= a < b < head.len() implies (#[trigger] head[a]).0
            != (#[trigger] head[b]).0 by {
            assert(head[a] == pairs[a]);
            assert(head[b] == pairs[b]);
        }
        lemma_map_of_pairs_len(head);
        lemma_map_of_pairs_domain(head, k);
        assert(!map_of_pairs(head).contains_key(k)) by {
            if exists|j: int| 0 <= j < head.len() && head[j].0 == k {
                let j = choose|j: int| 0 <= j < head.len() && head[j].0 == k;
                assert(pairs[j].0 == k);
                assert(pairs[j].0 != pairs[pairs.len() - 1].0);
            }
        }
        assert(map_of_pairs(pairs).dom() =~= map_of_pairs(head).dom().insert(k));
    }
}

/// An empty map stores no entries, so it renders as `{}`.
pub proof fn lemma_empty_query_map(m: &QueryMap)
    requires
        m@ == Map::<Seq<char>, Seq<char>>::empty(),
    ensures
        m.entries_view() == Seq::<(Seq<char>, Seq<char>)>::empty(),
        entries_str(m.entries_view()) == Seq::<char>::empty(),
{
    if m.entries_view().len() > 0 {
        lemma_map_of_pairs_domain(m.entries_view(), m.entries_view().last().0);
        assert(m.entries_view()[m.entries_view().len() - 1].0 == m.entries_view().last().0);
        assert(m@.contains_key(m.entries_view().last().0));
        assert(false);
    }
    assert(m.entries_view() =~= Seq::<(Seq<char>, Seq<char>)>::empty());
}

/// The rendered form of one entry: `'k'='v'` with both sides escaped.
pub open spec fn entry_str(k: Seq<char>, v: Seq<char>) -> Seq<char> {
    "'"@ + escape_spec(k) + "'='"@ + escape_spec(v) + "'"@
}

/// The rendered entry list, separated by `, `.
pub open spec fn entries_str(s: Seq<(Seq<char>, Seq<char>)>) -> Seq<char>
    decreases s.len(),
{
    if s.len() == 0 {
        Seq::empty()
    } else if s.len() == 1 {
        entry_str(s[0].0, s[0].1)
    } else {
        entry_str(s[0].0, s[0].1) + ", "@ + entries_str(s.skip(1))
    }
}

/// Render a parsed query map as `{'k'='v', ...}`, in storage order,
/// with backslashes and single quotes escaped.
pub fn hashmap_to_string(map: &QueryMap) -> (r: String)
    ensures
        r@ == "{"@ + entries_str(map.entries_view()) + "}"@,
{
    let entries = map.entries();
    let n = entries.len();
    let mut body = String::new();
    let mut i: usize = 0;
    proof {
        assert(map.entries_view().skip(0) =~= map.entries_view());
    }
    while i < n
        invariant
            i <= n,
            n == entries@.len(),
            pairs_view(entries@) == map.entries_view(),
            body@ + entries_str(map.entries_view().skip(i as int)) == entries_str(
                map.entries_view(),
            ),
        decreases n - i,
    {
        let ghost t = map.entries_view().skip(i as int);
        let ghost b0 = body@;
        proof {
            assert(t.skip(1) =~= map.entries_view().skip(i + 1));
            assert(t[0] == map.entries_view()[i as int]);
            assert(map.entries_view()[i as int].0 == entries@[i as int].0@);
            assert(map.entries_view()[i as int].1 == entries@[i as int].1@);
        }
        body.append("'");
        let ek = escape(entries[i].0.as_str());
        body.append(ek.as_str());
        body.append("'='");
        let ev = escape(entries[i].1.as_str());
        body.append(ev.as_str());
        body.append("'");
        if i + 1 < n {
            body.append(", ");
        }
        proof {
            if t.len() == 1 {
                assert(body@ =~= b0 + entry_str(t[0].0, t[0].1));
                assert(entries_str(t) == entry_str(t[0].0, t[0].1));
            } else {
                assert(body@ =~= b0 + (entry_str(t[0].0, t[0].1) + ", "@));
                assert(entries_str(t) == entry_str(t[0].0, t[0].1) + ", "@ + entries_str(
                    t.skip(1),
                ));
            }
            assert(body@ + entries_str(map.entries_view().skip(i + 1)) =~= entries_str(
                map.entries_view(),
            ));
        }
        i += 1;
    }
    proof {
        assert(map.entries_view().skip(n as int) =~= Seq::<(Seq<char>, Seq<char>)>::empty());
    }
    let mut s = String::new();
    s.append("{");
    s.append(body.as_str());
    s.append("}");
    proof {
        assert(s@ =~= "{"@ + entries_str(map.entries_view()) + "}"@);
    }
    s
}

} // verus!
