use vstd::prelude::*;
use vstd::string::*;

verus! {

/// Character-for-character equality of two string slices.
pub fn str_eq(a: &str, b: &str) -> (r: bool)
    ensures
        r == (a@ == b@),
{
    let x = a.to_owned();
    let y = b.to_owned();
    x == y
}

/// Relies on `String: FromIterator<char>`: collecting chars yields the
/// string with exactly those chars.
#[verifier::external_body]
pub fn chars_to_string(v: &Vec<char>) -> (r: String)
    ensures
        r@ == v@,
{
    v.iter().collect()
}

/// What `str::to_lowercase` returns: a function of the characters alone.
pub uninterp spec fn lower_of(s: Seq<char>) -> Seq<char>;

/// Relies on `str::to_lowercase`: the Unicode lowercase form, which
/// depends on the characters alone; an empty string stays empty.
#[verifier::external_body]
pub fn lowercase(s: &str) -> (r: String)
    ensures
        r@ == lower_of(s@),
        s@.len() == 0 ==> r@.len() == 0,
{
    s.to_lowercase()
}

/// The characters of a string slice, in order.
pub fn str_chars(s: &str) -> (r: Vec<char>)
    ensures
        r@ == s@,
{
    let n = s.unicode_len();
    let mut v: Vec<char> = Vec::new();
    let mut i: usize = 0;
    while i < n
        invariant
            i <= n,
            n == s@.len(),
            v@ == s@.subrange(0, i as int),
        decreases n - i,
    {
        v.push(s.get_char(i));
        proof {
            assert(v@ =~= s@.subrange(0, i + 1));
        }
        i += 1;
    }
    proof {
        assert(s@.subrange(0, n as int) =~= s@);
    }
    v
}

/// A decimal digit.
pub open spec fn is_dec_digit(c: char) -> bool {
    '0' <= c <= '9'
}

/// All characters are decimal digits, and there is at least one.
pub open spec fn digits_ok(s: Seq<char>) -> bool {
    s.len() > 0 && forall|i: int| 0 <= i < s.len() ==> is_dec_digit(#[trigger] s[i])
}

/// Numeric value of a digit string.
pub open spec fn digits_val(s: Seq<char>) -> int
    decreases s.len(),
{
    if s.len() == 0 {
        0
    } else {
        digits_val(s.drop_last()) * 10 + (s.last() as int - '0' as int)
    }
}

/// The non-negative integer denoted by `s`: an optional leading `+`,
/// then one or more decimal digits.
pub open spec fn unsigned_of(s: Seq<char>) -> Option<int> {
    let d = if s.len() >= 1 && s[0] == '+' {
        s.skip(1)
    } else {
        s
    };
    if digits_ok(d) {
        Some(digits_val(d))
    } else {
        None
    }
}

/// The value of `s` as a 16-bit unsigned integer, if it denotes one.
pub open spec fn u16_of(s: Seq<char>) -> Option<u16> {
    match unsigned_of(s) {
        Some(v) => if v <= u16::MAX {
            Some(v as u16)
        } else {
            None
        },
        None => None,
    }
}

/// The value of `s` as a `usize`, if it denotes one.
pub open spec fn usize_of(s: Seq<char>) -> Option<usize> {
    match unsigned_of(s) {
        Some(v) => if v <= usize::MAX {
            Some(v as usize)
        } else {
            None
        },
        None => None,
    }
}

proof fn lemma_digits_val_nonneg(s: Seq<char>)
    requires
        forall|i: int| 0 <= i < s.len() ==> is_dec_digit(#[trigger] s[i]),
    ensures
        digits_val(s) >= 0,
    decreases s.len(),
{
    if s.len() > 0 {
        lemma_digits_val_nonneg(s.drop_last());
    }
}

proof fn lemma_digits_val_grows(s: Seq<char>, i: int)
    requires
        0 <= i <= s.len(),
        forall|j: int| 0 <= j < s.len() ==> is_dec_digit(#[trigger] s[j]),
    ensures
        digits_val(s.subrange(0, i)) <= digits_val(s),
    decreases s.len() - i,
{
    if i == s.len() {
        assert(s.subrange(0, i) =~= s);
    } else {
        lemma_digits_val_grows(s, i + 1);
        let p = s.subrange(0, i);
        let q = s.subrange(0, i + 1);
        assert(q.drop_last() =~= p);
        lemma_digits_val_nonneg(p);
        assert(digits_val(q) == digits_val(p) * 10 + (s[i] as int - '0' as int));
        assert(digits_val(p) * 10 >= digits_val(p)) by (nonlinear_arith)
            requires
                digits_val(p) >= 0,
        ;
    }
}

/// Parse the digit run `s[from..]` as an integer bounded by `bound`.
pub(crate) fn parse_digits(s: &Vec<char>, from: usize, bound: u128) -> (r: Option<u128>)
    requires
        from <= s@.len(),
        bound <= u64::MAX,
    ensures
        match r {
            Some(v) => digits_ok(s@.skip(from as int)) && v == digits_val(
                s@.skip(from as int),
            ) && v <= bound,
            None => !digits_ok(s@.skip(from as int)) || digits_val(s@.skip(from as int))
                > bound,
        },
{
    let ghost d = s@.skip(from as int);
    let n = s.len();
    if from == n {
        return None;
    }
    let mut acc: u128 = 0;
    let mut i: usize = from;
    while i < n
        invariant
            from <= i <= n,
            n == s@.len(),
            d == s@.skip(from as int),
            forall|j: int| 0 <= j < i - from ==> is_dec_digit(#[trigger] d[j]),
            acc == digits_val(d.subrange(0, i - from)),
            acc <= bound,
            bound <= u64::MAX,
        decreases n - i,
    {
        let c = s[i];
        if !('0' <= c && c <= '9') {
            proof {
                assert(d[i - from] == s@[i as int]);
                assert(!is_dec_digit(d[i - from]));
            }
            return None;
        }
        let dv: u128 = (c as u32 - '0' as u32) as u128;
        let next: u128 = acc * 10 + dv;
        proof {
            let p = d.subrange(0, i - from);
            let q = d.subrange(0, i + 1 - from);
            assert(q.drop_last() =~= p);
            assert(d[i - from] == s@[i as int]);
        }
        if next > bound {
            proof {
                assert(digits_val(d.subrange(0, i + 1 - from)) > bound);
                if digits_ok(d) {
                    lemma_digits_val_grows(d, i + 1 - from);
                }
            }
            return None;
        }
        acc = next;
        i += 1;
    }
    proof {
        assert(d.subrange(0, n - from) =~= d);
    }
    Some(acc)
}

/// Parse `s` as a `u16`, accepting an optional leading `+` and one or
/// more decimal digits, exactly when the value fits.
pub fn parse_u16(s: &str) -> (r: Option<u16>)
    ensures
        r == u16_of(s@),
{
    let v = str_chars(s);
    let from: usize = if v.len() >= 1 && v[0] == '+' {
        1
    } else {
        0
    };
    proof {
        if from == 0 {
            assert(s@.skip(0) =~= s@);
        }
    }
    match parse_digits(&v, from, u16::MAX as u128) {
        Some(x) => Some(x as u16),
        None => None,
    }
}

/// Parse `s` as a `usize`, accepting an optional leading `+` and one
/// or more decimal digits, exactly when the value fits.
pub fn parse_usize(s: &str) -> (r: Option<usize>)
    ensures
        r == usize_of(s@),
{
    let v = str_chars(s);
    let from: usize = if v.len() >= 1 && v[0] == '+' {
        1
    } else {
        0
    };
    proof {
        if from == 0 {
            assert(s@.skip(0) =~= s@);
        }
    }
    match parse_digits(&v, from, usize::MAX as u128) {
        Some(x) => Some(x as usize),
        None => None,
    }
}

/// Collapse every doubled slash to a single slash, repeatedly, until
/// no two adjacent slashes remain.
pub open spec fn collapse_slashes(s: Seq<char>) -> Seq<char>
    decreases s.len(),
{
    if s.len() == 0 {
        s
    } else if s.len() >= 2 && s[0] == '/' && s[1] == '/' {
        collapse_slashes(s.skip(1))
    } else {
        seq![s[0]] + collapse_slashes(s.skip(1))
    }
}

proof fn lemma_collapse_first(s: Seq<char>)
    requires
        s.len() > 0,
    ensures
        collapse_slashes(s).len() > 0,
        collapse_slashes(s)[0] == '/' <==> s[0] == '/',
    decreases s.len(),
{
    if s.len() >= 2 && s[0] == '/' && s[1] == '/' {
        lemma_collapse_first(s.skip(1));
    }
}

/// Collapsing doubled slashes is idempotent: on an already-collapsed
/// string it is a no-op.
pub proof fn lemma_collapse_idempotent(s: Seq<char>)
    ensures
        collapse_slashes(collapse_slashes(s)) == collapse_slashes(s),
    decreases s.len(),
{
    if s.len() == 0 {
    } else if s.len() >= 2 && s[0] == '/' && s[1] == '/' {
        lemma_collapse_idempotent(s.skip(1));
    } else {
        lemma_collapse_idempotent(s.skip(1));
        let c1 = collapse_slashes(s.skip(1));
        let w = seq![s[0]] + c1;
        assert(w.skip(1) =~= c1);
        if c1.len() == 0 {
            assert(collapse_slashes(w) =~= seq![s[0]] + collapse_slashes(c1));
        } else {
            lemma_collapse_first(s.skip(1));
            if s.len() >= 2 {
                assert(s.skip(1)[0] == s[1]);
            }
            assert(!(w[0] == '/' && w[1] == '/'));
            assert(collapse_slashes(w) == seq![s[0]] + collapse_slashes(c1));
        }
    }
}

/// Collapse runs of slashes in `s` to single slashes.
pub fn collapse_doubled_slashes(s: &str) -> (r: String)
    ensures
        r@ == collapse_slashes(s@),
{
    let v = str_chars(s);
    let n = v.len();
    let mut out: Vec<char> = Vec::new();
    let mut i: usize = 0;
    proof {
        assert(s@.skip(0) =~= s@);
        assert(out@ + collapse_slashes(s@) =~= collapse_slashes(s@));
    }
    while i < n
        invariant
            i <= n,
            n == s@.len(),
            v@ == s@,
            out@ + collapse_slashes(s@.skip(i as int)) == collapse_slashes(s@),
        decreases n - i,
    {
        let ghost t = s@.skip(i as int);
        proof {
            assert(t.skip(1) =~= s@.skip(i + 1));
            assert(t[0] == s@[i as int]);
            if i + 1 < n {
                assert(t[1] == s@[i + 1]);
            }
        }
        if v[i] == '/' && i + 1 < n && v[i + 1] == '/' {
            // this slash is dropped
            proof {
                assert(collapse_slashes(t) == collapse_slashes(s@.skip(i + 1)));
            }
        } else {
            out.push(v[i]);
            proof {
                assert(collapse_slashes(t) == seq![t[0]] + collapse_slashes(s@.skip(i + 1)));
                assert(out@ + collapse_slashes(s@.skip(i + 1)) =~= collapse_slashes(s@));
            }
        }
        i += 1;
    }
    proof {
        assert(s@.skip(n as int) =~= Seq::<char>::empty());
        assert(out@ =~= collapse_slashes(s@));
    }
    chars_to_string(&out)
}

/// Collapse doubled slashes in a request target, leaving any query
/// string (everything from the first `?` on) untouched.
pub open spec fn collapse_target(t: Seq<char>) -> Seq<char> {
    match crate::cursor::find_from(t, 0, seq!['?']) {
        Some(q) => collapse_slashes(t.take(q)) + t.skip(q),
        None => collapse_slashes(t),
    }
}

proof fn lemma_collapse_no_char(s: Seq<char>, c: char)
    requires
        forall|j: int| 0 <= j < s.len() ==> s[j] != c,
    ensures
        forall|j: int|
            0 <= j < collapse_slashes(s).len() ==> #[trigger] collapse_slashes(s)[j] != c,
    decreases s.len(),
{
    if s.len() == 0 {
    } else {
        assert forall|j: int| 0 <= j < s.skip(1).len() implies s.skip(1)[j] != c by {
            assert(s.skip(1)[j] == s[j + 1]);
        }
        lemma_collapse_no_char(s.skip(1), c);
        if s.len() >= 2 && s[0] == '/' && s[1] == '/' {
        } else {
            let w = seq![s[0]] + collapse_slashes(s.skip(1));
            assert forall|j: int| 0 <= j < w.len() implies #[trigger] w[j] != c by {
                if j == 0 {
                    assert(w[0] == s[0]);
                } else {
                    assert(w[j] == collapse_slashes(s.skip(1))[j - 1]);
                }
            }
        }
    }
}

proof fn lemma_find_concat_char(a: Seq<char>, b: Seq<char>, c: char, i: int)
    requires
        0 <= i <= a.len(),
        forall|j: int| 0 <= j < a.len() ==> a[j] != c,
        b.len() > 0,
        b[0] == c,
    ensures
        crate::cursor::find_from(a + b, i, seq![c]) == Some(a.len() as int),
    decreases a.len() - i,
{
    let w = a + b;
    if i == a.len() {
        assert(w[i] == b[0]);
        crate::cursor::lemma_match_at_char(w, i, c);
    } else {
        assert(w[i] == a[i]);
        crate::cursor::lemma_match_at_char(w, i, c);
        lemma_find_concat_char(a, b, c, i + 1);
    }
}

/// Collapsing a request target is idempotent: on an already-collapsed
/// target it is a no-op, and the query string is never touched.
pub proof fn lemma_collapse_target_idempotent(t: Seq<char>)
    ensures
        collapse_target(collapse_target(t)) == collapse_target(t),
{
    crate::cursor::lemma_find_from_first(t, 0, seq!['?']);
    match crate::cursor::find_from(t, 0, seq!['?']) {
        None => {
            assert forall|j: int| 0 <= j < t.len() implies t[j] != '?' by {
                crate::cursor::lemma_match_at_char(t, j, '?');
            }
            let ct = collapse_slashes(t);
            lemma_collapse_no_char(t, '?');
            if crate::cursor::find_from(ct, 0, seq!['?']) is Some {
                let p = crate::cursor::find_from(ct, 0, seq!['?'])->Some_0;
                crate::cursor::lemma_find_from_bounds(ct, 0, seq!['?']);
                crate::cursor::lemma_match_at_char(ct, p, '?');
                assert(false);
            }
            lemma_collapse_idempotent(t);
        },
        Some(q) => {
            crate::cursor::lemma_find_from_bounds(t, 0, seq!['?']);
            let head = t.take(q);
            let tail = t.skip(q);
            assert forall|j: int| 0 <= j < head.len() implies head[j] != '?' by {
                assert(head[j] == t[j]);
                crate::cursor::lemma_match_at_char(t, j, '?');
            }
            crate::cursor::lemma_match_at_char(t, q, '?');
            assert(tail.len() > 0 && tail[0] == t[q] && t[q] == '?');
            let ch = collapse_slashes(head);
            lemma_collapse_no_char(head, '?');
            let ct = ch + tail;
            lemma_find_concat_char(ch, tail, '?', 0);
            assert(ct.take(ch.len() as int) =~= ch);
            assert(ct.skip(ch.len() as int) =~= tail);
            lemma_collapse_idempotent(head);
            assert(collapse_target(ct) =~= ct);
        },
    }
}

/// Collapse runs of slashes in the path part of a request target; the
/// query string, if any, is kept as it is.
pub fn collapse_request_target(t: &str) -> (r: String)
    ensures
        r@ == collapse_target(t@),
{
    let owned = t.to_owned();
    match crate::cursor::find(0, &owned, &crate::cursor::Patt::Char('?')) {
        Ok(found) => {
            let q = found.1;
            let n = owned.as_str().unicode_len();
            proof {
                crate::cursor::lemma_find_from_bounds(t@, 0, seq!['?']);
            }
            let head = owned.as_str().substring_char(0, q);
            let tail = owned.as_str().substring_char(q, n);
            proof {
                assert(head@ =~= t@.take(q as int));
                assert(tail@ =~= t@.skip(q as int));
            }
            let mut out = collapse_doubled_slashes(head);
            out.append(tail);
            out
        },
        Err(_) => collapse_doubled_slashes(t),
    }
}

/// Escape a value for the rendered map form: backslashes are doubled
/// and single quotes gain a leading backslash.
pub open spec fn escape_spec(s: Seq<char>) -> Seq<char>
    decreases s.len(),
{
    if s.len() == 0 {
        s
    } else {
        let head = if s[0] == '\\' {
            seq!['\\', '\\']
        } else if s[0] == '\'' {
            seq!['\\', '\'']
        } else {
            seq![s[0]]
        };
        head + escape_spec(s.skip(1))
    }
}

pub fn escape(s: &str) -> (r: String)
    ensures
        r@ == escape_spec(s@),
{
    let v = str_chars(s);
    let n = v.len();
    let mut out: Vec<char> = Vec::new();
    let mut i: usize = 0;
    proof {
        assert(s@.skip(0) =~= s@);
        assert(out@ + escape_spec(s@) =~= escape_spec(s@));
    }
    while i < n
        invariant
            i <= n,
            n == s@.len(),
            v@ == s@,
            out@ + escape_spec(s@.skip(i as int)) == escape_spec(s@),
        decreases n - i,
    {
        let ghost t = s@.skip(i as int);
        proof {
            assert(t.skip(1) =~= s@.skip(i + 1));
            assert(t[0] == s@[i as int]);
        }
        if v[i] == '\\' {
            out.push('\\');
            out.push('\\');
        } else if v[i] == '\'' {
            out.push('\\');
            out.push('\'');
        } else {
            out.push(v[i]);
        }
        proof {
            assert(out@ + escape_spec(s@.skip(i + 1)) =~= escape_spec(s@));
        }
        i += 1;
    }
    proof {
        assert(s@.skip(n as int) =~= Seq::<char>::empty());
        assert(out@ =~= escape_spec(s@));
    }
    chars_to_string(&out)
}

/// Whether `s` ends with the suffix `t`.
pub open spec fn ends_with(s: Seq<char>, t: Seq<char>) -> bool {
    s.len() >= t.len() && s.skip(s.len() - t.len()) == t
}

/// The output file name: a trailing `.log` is replaced by
/// `new_extension`, otherwise `new_extension` is appended.
pub open spec fn replace_extension_spec(file: Seq<char>, new_extension: Seq<char>) -> Seq<
    char,
> {
    if ends_with(file, ".log"@) {
        file.take(file.len() - 4) + new_extension
    } else {
        file + new_extension
    }
}

pub fn replace_extension(file: &str, new_extension: &str) -> (r: String)
    ensures
        r@ == replace_extension_spec(file@, new_extension@),
{
    proof {
        reveal_strlit(".log");
    }
    let n = file.unicode_len();
    let has_suffix: bool = if n >= 4 {
        let tail = file.substring_char(n - 4, n);
        proof {
            assert(file@.subrange(n - 4, n as int) =~= file@.skip(n - 4));
        }
        str_eq(tail, ".log")
    } else {
        false
    };
    if has_suffix {
        let mut head = file.substring_char(0, n - 4).to_owned();
        head.append(new_extension);
        proof {
            assert(head@ =~= replace_extension_spec(file@, new_extension@));
        }
        head
    } else {
        let mut whole = file.to_owned();
        whole.append(new_extension);
        proof {
            assert(whole@ =~= replace_extension_spec(file@, new_extension@));
        }
        whole
    }
}


/// Index of the last occurrence of `c` in `s`, if any.
pub open spec fn last_occurrence(s: Seq<char>, c: char) -> Option<int>
    decreases s.len(),
{
    if s.len() == 0 {
        None
    } else if s.last() == c {
        Some(s.len() - 1)
    } else {
        last_occurrence(s.drop_last(), c)
    }
}

/// `s` without its trailing run of slashes.
pub open spec fn strip_trailing_slashes(s: Seq<char>) -> Seq<char>
    decreases s.len(),
{
    if s.len() > 0 && s.last() == '/' {
        strip_trailing_slashes(s.drop_last())
    } else {
        s
    }
}

/// The final path segment, ignoring trailing slashes.
pub open spec fn file_name_of(path: Seq<char>) -> Seq<char> {
    match last_occurrence(strip_trailing_slashes(path), '/') {
        Some(i) => strip_trailing_slashes(path).skip(i + 1),
        None => strip_trailing_slashes(path),
    }
}

/// The extension of the final path segment: what follows its last dot,
/// absent when there is no dot, when the segment starts with its only
/// dot, or for the parent-directory segment.
pub open spec fn extension_of(path: Seq<char>) -> Option<Seq<char>> {
    let f = file_name_of(path);
    if f == ".."@ {
        None
    } else {
        match last_occurrence(f, '.') {
            Some(j) => if j > 0 {
                Some(f.skip(j + 1))
            } else {
                None
            },
            None => None,
        }
    }
}

/// Extract the extension of the final segment of `path`, not yet
/// lowercased.
pub fn extension_of_path(path: &str) -> (r: Option<String>)
    ensures
        match extension_of(path@) {
            Some(e) => r matches Some(x) && x@ == e,
            None => r is None,
        },
{
    proof {
        reveal_strlit("..");
        assert(".."@.len() == 2 && ".."@[0] == '.' && ".."@[1] == '.');
    }
    let v = str_chars(path);
    let n = v.len();
    let mut end: usize = n;
    proof {
        assert(path@.take(n as int) =~= path@);
    }
    while end > 0 && v[end - 1] == '/'
        invariant
            end <= n,
            n == path@.len(),
            v@ == path@,
            strip_trailing_slashes(path@) == strip_trailing_slashes(path@.take(end as int)),
        decreases end,
    {
        proof {
            let t = path@.take(end as int);
            assert(t.last() == path@[end - 1]);
            assert(t.drop_last() =~= path@.take(end - 1));
        }
        end -= 1;
    }
    let ghost stripped = strip_trailing_slashes(path@);
    proof {
        let t = path@.take(end as int);
        if end > 0 {
            assert(t.last() == path@[end - 1]);
        }
        assert(stripped == t);
    }
    let mut start: usize = end;
    proof {
        assert(path@.take(end as int).take(end as int) =~= path@.take(end as int));
    }
    while start > 0 && v[start - 1] != '/'
        invariant
            start <= end <= n,
            n == path@.len(),
            v@ == path@,
            stripped == path@.take(end as int),
            last_occurrence(stripped, '/') == last_occurrence(
                path@.take(end as int).take(start as int),
                '/',
            ),
        decreases start,
    {
        proof {
            let t = path@.take(end as int).take(start as int);
            assert(t.len() == start);
            assert(t.last() == path@[start - 1]);
            assert(t.drop_last() =~= path@.take(end as int).take(start - 1));
        }
        start -= 1;
    }
    let ghost f = file_name_of(path@);
    proof {
        let t = path@.take(end as int).take(start as int);
        if start > 0 {
            assert(t.last() == path@[start - 1]);
            assert(last_occurrence(stripped, '/') == Some(start - 1));
            assert(f =~= path@.subrange(start as int, end as int));
        } else {
            assert(t.len() == 0);
            assert(last_occurrence(stripped, '/') is None);
            assert(f == stripped);
            assert(f =~= path@.subrange(start as int, end as int));
        }
    }
    if end - start == 2 && v[start] == '.' && v[start + 1] == '.' {
        proof {
            assert(f =~= ".."@);
        }
        return None;
    }
    proof {
        assert(f != ".."@);
    }
    let mut m: usize = end;
    proof {
        assert(f.take(end - start) =~= f);
    }
    while m > start && v[m - 1] != '.'
        invariant
            start <= m <= end <= n,
            n == path@.len(),
            v@ == path@,
            f == path@.subrange(start as int, end as int),
            last_occurrence(f, '.') == last_occurrence(f.take(m - start), '.'),
        decreases m,
    {
        proof {
            let t = f.take(m - start);
            assert(t.len() == m - start);
            assert(t.last() == f[m - 1 - start]);
            assert(f[m - 1 - start] == path@[m - 1]);
            assert(t.drop_last() =~= f.take(m - 1 - start));
        }
        m -= 1;
    }
    if m == start {
        proof {
            assert(f.take(0) =~= Seq::<char>::empty());
            assert(last_occurrence(f, '.') is None);
        }
        return None;
    }
    proof {
        let t = f.take(m - start);
        assert(t.last() == f[m - 1 - start]);
        assert(f[m - 1 - start] == path@[m - 1]);
        assert(last_occurrence(f, '.') == Some(m - 1 - start));
    }
    if m - 1 == start {
        return None;
    }
    let ext = path.substring_char(m, end).to_owned();
    proof {
        assert(ext@ =~= f.skip(m - start));
    }
    Some(ext)
}

} // verus!

