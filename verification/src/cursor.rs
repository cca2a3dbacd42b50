use vstd::prelude::*;
use vstd::string::*;
use crate::error::ParseError;

verus! {

/// A delimiter searched for by the field cursor: a single character or
/// a literal substring.
pub enum Patt<'a> {
    Char(char),
    Str(&'a str),
}

impl<'a> View for Patt<'a> {
    type V = Seq<char>;

    open spec fn view(&self) -> Seq<char> {
        match self {
            Patt::Char(c) => seq![*c],
            Patt::Str(s) => s@,
        }
    }
}

/// The pattern occurs in `s` at position `i`.
pub open spec fn match_at(s: Seq<char>, i: int, pat: Seq<char>) -> bool {
    &&& 0 <= i
    &&& i + pat.len() <= s.len()
    &&& s.subrange(i, i + pat.len() as int) == pat
}

/// Position of the first occurrence of `pat` at or after `i`, if any.
pub open spec fn find_from(s: Seq<char>, i: int, pat: Seq<char>) -> Option<int>
    decreases s.len() - i + 1,
{
    if i < 0 || i + pat.len() > s.len() {
        None
    } else if match_at(s, i, pat) {
        Some(i)
    } else {
        find_from(s, i + 1, pat)
    }
}

/// A found position is a real match: it lies at or after the start,
/// and the pattern fits there.
pub proof fn lemma_find_from_bounds(s: Seq<char>, i: int, pat: Seq<char>)
    requires
        find_from(s, i, pat) is Some,
    ensures
        ({
            let p = find_from(s, i, pat)->Some_0;
            i <= p && p + pat.len() <= s.len() && match_at(s, p, pat)
        }),
    decreases s.len() - i + 1,
{
    if i < 0 || i + pat.len() > s.len() {
    } else if match_at(s, i, pat) {
    } else {
        lemma_find_from_bounds(s, i + 1, pat);
    }
}

/// A single-character pattern matches at a position exactly when that
/// character stands there.
pub proof fn lemma_match_at_char(s: Seq<char>, j: int, c: char)
    requires
        0 <= j < s.len(),
    ensures
        match_at(s, j, seq![c]) <==> s[j] == c,
{
    if match_at(s, j, seq![c]) {
        assert(s.subrange(j, j + 1)[0] == s[j]);
        assert((seq![c])[0] == c);
    }
    if s[j] == c {
        assert(s.subrange(j, j + 1) =~= seq![c]);
    }
}

/// The first-occurrence function is exact: a found position is the
/// earliest match, and a miss means no match at or after the start.
pub proof fn lemma_find_from_first(s: Seq<char>, i: int, pat: Seq<char>)
    requires
        0 <= i,
    ensures
        match find_from(s, i, pat) {
            Some(p) => i <= p && match_at(s, p, pat) && forall|j: int|
                i <= j < p ==> !match_at(s, j, pat),
            None => forall|j: int| i <= j ==> !match_at(s, j, pat),
        },
    decreases s.len() - i + 1,
{
    if i + pat.len() > s.len() {
    } else if match_at(s, i, pat) {
    } else {
        lemma_find_from_first(s, i + 1, pat);
    }
}

/// Whether the pattern occurs in `line` at character position `i`.
fn matches_at(line: &str, n: usize, i: usize, pattern: &Patt) -> (r: bool)
    requires
        n == line@.len(),
        i + pattern@.len() <= n,
    ensures
        r == match_at(line@, i as int, pattern@),
{
    match pattern {
        Patt::Char(c) => {
            let got = line.get_char(i);
            proof {
                assert(pattern@ == seq![*c]);
                let q = line@.subrange(i as int, i + 1);
                assert(q =~= seq![line@[i as int]]);
                assert(q[0] == line@[i as int]);
                assert((seq![*c])[0] == *c);
            }
            got == *c
        },
        Patt::Str(p) => {
            proof {
                assert(pattern@ == p@);
            }
            let plen = p.unicode_len();
            let mut j: usize = 0;
            while j < plen
                invariant
                    j <= plen,
                    plen == p@.len(),
                    pattern@ == p@,
                    n == line@.len(),
                    i + plen <= n,
                    forall|t: int| 0 <= t < j ==> line@[i + t] == p@[t],
                decreases plen - j,
            {
                if line.get_char(i + j) != p.get_char(j) {
                    proof {
                        let q = line@.subrange(i as int, i + plen);
                        assert(q[j as int] == line@[i + j]);
                        assert(line@[i + j] != p@[j as int]);
                        assert(q != p@);
                    }
                    return false;
                }
                j += 1;
            }
            proof {
                assert(line@.subrange(i as int, i + plen) =~= p@);
            }
            true
        },
    }
}

/// The field cursor. Starting at character offset `start`, finds the
/// first occurrence of `pattern` in `line`; on success returns the text
/// strictly between `start` and the match, together with the absolute
/// offset of the match. Fails when the pattern does not occur at or
/// after `start` (in particular whenever `start` is past the end).
pub fn find<'a>(start: usize, line: &String, pattern: &Patt<'a>) -> (r: Result<
    (String, usize),
    ParseError,
>)
    ensures
        line@.len() <= usize::MAX,
        match find_from(line@, start as int, pattern@) {
            Some(p) => {
                &&& r matches Ok(f)
                &&& f.0@ == line@.subrange(start as int, p)
                &&& f.1 == p
                &&& p + pattern@.len() <= line@.len()
            },
            None => r is Err,
        },
{
    let n = line.as_str().unicode_len();
    let plen = match pattern {
        Patt::Char(_) => 1,
        Patt::Str(s) => s.unicode_len(),
    };
    if start > n || plen > n - start {
        return Err(ParseError::new());
    }
    if plen == 0 {
        proof {
            assert(line@.subrange(start as int, start as int) =~= pattern@);
        }
        return Ok((String::new(), start));
    }
    let limit = n - plen;
    let mut i: usize = start;
    while i <= limit
        invariant
            start <= i,
            i <= limit + 1,
            limit == n - plen,
            1 <= plen <= n,
            n == line@.len(),
            plen == pattern@.len(),
            find_from(line@, start as int, pattern@) == find_from(line@, i as int, pattern@),
        decreases limit + 1 - i,
    {
        if matches_at(line.as_str(), n, i, pattern) {
            let field = line.as_str().substring_char(start, i).to_owned();
            return Ok((field, i));
        }
        i += 1;
    }
    Err(ParseError::new())
}

} // verus!
