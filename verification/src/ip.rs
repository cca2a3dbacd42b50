use vstd::prelude::*;
use vstd::string::*;
use crate::text::{chars_to_string, is_dec_digit, digits_ok, digits_val, parse_digits, str_chars};

verus! {

/// The views of a sequence of owned strings.
pub open spec fn strings_view(v: Seq<String>) -> Seq<Seq<char>> {
    v.map_values(|s: String| s@)
}

/// Split `s` at every occurrence of `sep`; an empty input gives one
/// empty part, and n separators give n + 1 parts.
pub open spec fn split_spec(s: Seq<char>, sep: char) -> Seq<Seq<char>>
    decreases s.len(),
{
    if s.len() == 0 {
        seq![Seq::<char>::empty()]
    } else if s[0] == sep {
        seq![Seq::<char>::empty()] + split_spec(s.skip(1), sep)
    } else {
        let rest = split_spec(s.skip(1), sep);
        seq![seq![s[0]] + rest[0]] + rest.skip(1)
    }
}

proof fn lemma_split_nonempty(s: Seq<char>, sep: char)
    ensures
        split_spec(s, sep).len() >= 1,
    decreases s.len(),
{
    if s.len() > 0 {
        lemma_split_nonempty(s.skip(1), sep);
    }
}

/// The first part extended on the left with `p`.
pub open spec fn prepend_first(p: Seq<char>, parts: Seq<Seq<char>>) -> Seq<Seq<char>> {
    seq![p + parts[0]] + parts.skip(1)
}

/// Split a string at every occurrence of `sep`.
pub fn split(s: &str, sep: char) -> (r: Vec<String>)
    ensures
        strings_view(r@) == split_spec(s@, sep),
{
    let v = str_chars(s);
    let n = v.len();
    let mut done: Vec<String> = Vec::new();
    let mut cur: Vec<char> = Vec::new();
    let mut i: usize = 0;
    proof {
        assert(s@.skip(0) =~= s@);
        lemma_split_nonempty(s@, sep);
        assert(prepend_first(cur@, split_spec(s@, sep)) =~~= split_spec(s@, sep));
        assert(strings_view(done@) + prepend_first(cur@, split_spec(s@, sep)) =~~= split_spec(
            s@,
            sep,
        ));
    }
    while i < n
        invariant
            i <= n,
            n == s@.len(),
            v@ == s@,
            strings_view(done@) + prepend_first(cur@, split_spec(s@.skip(i as int), sep))
                == split_spec(s@, sep),
        decreases n - i,
    {
        let ghost t = s@.skip(i as int);
        proof {
            assert(t.skip(1) =~= s@.skip(i + 1));
            assert(t[0] == s@[i as int]);
            lemma_split_nonempty(s@.skip(i + 1), sep);
        }
        if v[i] == sep {
            let part = chars_to_string(&cur);
            done.push(part);
            cur = Vec::new();
            proof {
                let rest = split_spec(s@.skip(i + 1), sep);
                assert(split_spec(t, sep) == seq![Seq::<char>::empty()] + rest);
                assert(strings_view(done@) + prepend_first(cur@, rest) =~~= split_spec(s@, sep));
            }
        } else {
            cur.push(v[i]);
            proof {
                let rest = split_spec(s@.skip(i + 1), sep);
                assert(split_spec(t, sep) == seq![seq![t[0]] + rest[0]] + rest.skip(1));
                assert(strings_view(done@) + prepend_first(cur@, rest) =~~= split_spec(s@, sep));
            }
        }
        i += 1;
    }
    let part = chars_to_string(&cur);
    done.push(part);
    proof {
        assert(s@.skip(n as int) =~= Seq::<char>::empty());
        assert(split_spec(s@.skip(n as int), sep) == seq![Seq::<char>::empty()]);
        assert(prepend_first(cur@, seq![Seq::<char>::empty()]) =~~= seq![cur@]);
        assert(strings_view(done@) =~~= split_spec(s@, sep));
    }
    done
}

/// A hexadecimal digit.
pub open spec fn is_hex_digit(c: char) -> bool {
    is_dec_digit(c) || ('a' <= c <= 'f') || ('A' <= c <= 'F')
}

/// A valid 16-bit group of an IPv6 literal: one to four hex digits.
pub open spec fn valid_h16(g: Seq<char>) -> bool {
    1 <= g.len() <= 4 && forall|i: int| 0 <= i < g.len() ==> is_hex_digit(#[trigger] g[i])
}

/// A valid dotted-quad octet: one to three decimal digits, no leading
/// zero, value at most 255.
pub open spec fn valid_ipv4_octet(g: Seq<char>) -> bool {
    &&& 1 <= g.len() <= 3
    &&& digits_ok(g)
    &&& (g[0] == '0' ==> g.len() == 1)
    &&& digits_val(g) <= 255
}

/// Parts `from..to` are all valid 16-bit hex groups.
pub open spec fn all_h16(p: Seq<Seq<char>>, from: int, to: int) -> bool {
    forall|i: int| from <= i < to ==> valid_h16(#[trigger] p[i])
}

/// Every part is a valid dotted-quad octet.
pub open spec fn all_octets(p: Seq<Seq<char>>) -> bool {
    forall|i: int| 0 <= i < p.len() ==> valid_ipv4_octet(#[trigger] p[i])
}

/// A valid IPv4 literal: four valid octets separated by dots.
pub open spec fn valid_ipv4(s: Seq<char>) -> bool {
    split_spec(s, '.').len() == 4 && all_octets(split_spec(s, '.'))
}

/// A valid IPv6 literal: eight 16-bit groups, where the last two may
/// be given as an embedded dotted quad, and one `::` may stand for a
/// run of at least one zero group.
pub open spec fn valid_ipv6(s: Seq<char>) -> bool {
    match crate::cursor::find_from(s, 0, seq![':', ':']) {
        None => {
            let p = split_spec(s, ':');
            (p.len() == 8 && all_h16(p, 0, 8)) || (p.len() == 7 && all_h16(p, 0, 6)
                && valid_ipv4(p[6]))
        },
        Some(dc) => {
            let left = s.take(dc);
            let right = s.skip(dc + 2);
            let lp = if left.len() == 0 {
                Seq::<Seq<char>>::empty()
            } else {
                split_spec(left, ':')
            };
            let rp = if right.len() == 0 {
                Seq::<Seq<char>>::empty()
            } else {
                split_spec(right, ':')
            };
            &&& all_h16(lp, 0, lp.len() as int)
            &&& {
                ||| (all_h16(rp, 0, rp.len() as int) && lp.len() + rp.len() <= 7)
                ||| (rp.len() >= 1 && valid_ipv4(rp.last()) && all_h16(rp, 0, rp.len() - 1)
                    && lp.len() + rp.len() + 1 <= 7)
            }
        },
    }
}

/// A valid IPv4 or IPv6 literal.
pub open spec fn is_ip(s: Seq<char>) -> bool {
    valid_ipv4(s) || valid_ipv6(s)
}

/// Whether `g` is a valid 16-bit hex group.
fn check_h16(g: &str) -> (r: bool)
    ensures
        r == valid_h16(g@),
{
    let v = str_chars(g);
    let n = v.len();
    if n < 1 || n > 4 {
        return false;
    }
    let mut i: usize = 0;
    while i < n
        invariant
            i <= n,
            n == g@.len(),
            v@ == g@,
            forall|j: int| 0 <= j < i ==> is_hex_digit(#[trigger] g@[j]),
        decreases n - i,
    {
        let c = v[i];
        let hex = ('0' <= c && c <= '9') || ('a' <= c && c <= 'f') || ('A' <= c && c <= 'F');
        if !hex {
            return false;
        }
        i += 1;
    }
    true
}

/// Whether `g` is a valid dotted-quad octet.
fn check_ipv4_octet(g: &str) -> (r: bool)
    ensures
        r == valid_ipv4_octet(g@),
{
    let v = str_chars(g);
    let n = v.len();
    if n < 1 || n > 3 {
        return false;
    }
    if v[0] == '0' && n != 1 {
        return false;
    }
    proof {
        assert(g@.skip(0) =~= g@);
    }
    match parse_digits(&v, 0, 255) {
        Some(_) => true,
        None => false,
    }
}

/// Whether every part of `parts` is a valid dotted-quad octet.
fn check_octets(parts: &Vec<String>) -> (r: bool)
    ensures
        r == all_octets(strings_view(parts@)),
{
    let n = parts.len();
    proof {
        assert(strings_view(parts@).len() == parts@.len());
    }
    let mut i: usize = 0;
    while i < n
        invariant
            i <= n,
            n == parts@.len(),
            strings_view(parts@).len() == n,
            forall|j: int| 0 <= j < i ==> valid_ipv4_octet(#[trigger] strings_view(parts@)[j]),
        decreases n - i,
    {
        let ok = check_ipv4_octet(parts[i].as_str());
        proof {
            assert(strings_view(parts@)[i as int] == parts@[i as int]@);
        }
        if !ok {
            return false;
        }
        i += 1;
    }
    true
}

/// Whether `s` is a valid IPv4 literal.
pub fn check_ipv4(s: &str) -> (r: bool)
    ensures
        r == valid_ipv4(s@),
{
    let parts = split(s, '.');
    proof {
        assert(strings_view(parts@).len() == parts@.len());
    }
    if parts.len() != 4 {
        return false;
    }
    check_octets(&parts)
}

/// Whether every part of `parts` in `[from, to)` is a valid hex group.
fn check_h16_range(parts: &Vec<String>, from: usize, to: usize) -> (r: bool)
    requires
        from <= to <= parts@.len(),
    ensures
        r == all_h16(strings_view(parts@), from as int, to as int),
{
    let mut i: usize = from;
    while i < to
        invariant
            from <= i <= to <= parts@.len(),
            forall|j: int| from <= j < i ==> valid_h16((#[trigger] strings_view(parts@)[j])),
        decreases to - i,
    {
        let ok = check_h16(parts[i].as_str());
        proof {
            assert(strings_view(parts@)[i as int] == parts@[i as int]@);
        }
        if !ok {
            return false;
        }
        i += 1;
    }
    true
}

/// Whether `s` is a valid IPv6 literal.
pub fn check_ipv6(s: &str) -> (r: bool)
    ensures
        r == valid_ipv6(s@),
{
    proof {
        reveal_strlit("::");
        assert("::"@.len() == 2 && "::"@[0] == ':' && "::"@[1] == ':');
        assert("::"@ =~= seq![':', ':']);
    }
    let owned = s.to_owned();
    let dc = crate::cursor::find(0, &owned, &crate::cursor::Patt::Str("::"));
    match dc {
        Err(_) => {
            let parts = split(s, ':');
            proof {
                assert(strings_view(parts@).len() == parts@.len());
            }
            if parts.len() == 8 {
                check_h16_range(&parts, 0, 8)
            } else if parts.len() == 7 {
                let groups_ok = check_h16_range(&parts, 0, 6);
                if !groups_ok {
                    return false;
                }
                let tail_ok = check_ipv4(parts[6].as_str());
                proof {
                    assert(strings_view(parts@)[6] == parts@[6]@);
                }
                tail_ok
            } else {
                false
            }
        },
        Ok((_, pos)) => {
            let n = owned.as_str().unicode_len();
            let ghost dcp = crate::cursor::find_from(s@, 0, seq![':', ':'])->Some_0;
            proof {
                assert(owned@ == s@);
                crate::cursor::lemma_find_from_bounds(s@, 0, seq![':', ':']);
                assert(pos == dcp && dcp + 2 <= s@.len());
            }
            let left = owned.as_str().substring_char(0, pos);
            let right = owned.as_str().substring_char(pos + 2, n);
            proof {
                assert(left@ =~= s@.take(dcp));
                assert(right@ =~= s@.skip(dcp + 2));
            }
            let mut lcount: usize = 0;
            if left.unicode_len() > 0 {
                let lparts = split(left, ':');
                lcount = lparts.len();
                proof {
                    assert(strings_view(lparts@).len() == lparts@.len());
                    assert(strings_view(lparts@) == split_spec(s@.take(dcp), ':'));
                }
                if !check_h16_range(&lparts, 0, lcount) {
                    return false;
                }
            }
            if right.unicode_len() == 0 {
                return lcount <= 7;
            }
            let rparts = split(right, ':');
            let rcount = rparts.len();
            proof {
                lemma_split_nonempty(right@, ':');
                assert(strings_view(rparts@).len() == rparts@.len());
                assert(strings_view(rparts@) == split_spec(s@.skip(dcp + 2), ':'));
            }
            if check_h16_range(&rparts, 0, rcount) {
                if lcount <= 7 && rcount <= 7 - lcount {
                    return true;
                }
            }
            let head_ok = check_h16_range(&rparts, 0, rcount - 1);
            let tail_ok = check_ipv4(rparts[rcount - 1].as_str());
            proof {
                assert(strings_view(rparts@)[rcount - 1] == rparts@[rcount - 1]@);
                assert(strings_view(rparts@).last() == rparts@[rcount - 1]@);
            }
            head_ok && tail_ok && lcount <= 6 && rcount <= 6 - lcount
        },
    }
}

/// Whether `s` is a valid IPv4 or IPv6 literal.
pub fn is_valid_ip(s: &str) -> (r: bool)
    ensures
        r == is_ip(s@),
{
    if check_ipv4(s) {
        true
    } else {
        check_ipv6(s)
    }
}

/// Value of one hex digit.
pub open spec fn hex_val(c: char) -> int {
    if '0' <= c <= '9' {
        c as int - '0' as int
    } else if 'a' <= c <= 'f' {
        c as int - 'a' as int + 10
    } else {
        c as int - 'A' as int + 10
    }
}

/// Numeric value of a hex-digit string.
pub open spec fn h16_val(g: Seq<char>) -> int
    decreases g.len(),
{
    if g.len() == 0 {
        0
    } else {
        h16_val(g.drop_last()) * 16 + hex_val(g.last())
    }
}

proof fn lemma_h16_val_bound(g: Seq<char>)
    requires
        g.len() <= 4,
        forall|i: int| 0 <= i < g.len() ==> is_hex_digit(#[trigger] g[i]),
    ensures
        0 <= h16_val(g) < 0x10000,
    decreases g.len(),
{
    if g.len() > 0 {
        let dl = g.drop_last();
        assert forall|i: int| 0 <= i < dl.len() implies is_hex_digit(#[trigger] dl[i]) by {
            assert(dl[i] == g[i]);
        }
        lemma_h16_val_small(dl, 3);
        assert(0 <= hex_val(g.last()) < 16);
    }
}

proof fn lemma_h16_val_small(g: Seq<char>, n: int)
    requires
        g.len() <= n,
        1 <= n <= 3,
        forall|i: int| 0 <= i < g.len() ==> is_hex_digit(#[trigger] g[i]),
    ensures
        0 <= h16_val(g) && h16_val(g) < 16 * 16 * 16 * 16,
        g.len() <= 1 ==> h16_val(g) < 16,
        g.len() <= 2 ==> h16_val(g) < 256,
        g.len() <= 3 ==> h16_val(g) < 4096,
    decreases g.len(),
{
    if g.len() > 0 {
        lemma_h16_val_small(g.drop_last(), if n == 1 { 1 } else { n - 1 });
        assert(0 <= hex_val(g.last()) < 16);
    }
}

/// Parse a valid hex group into its value.
fn h16_value(g: &str) -> (r: u16)
    requires
        valid_h16(g@),
    ensures
        r == h16_val(g@),
{
    let v = str_chars(g);
    let n = v.len();
    let mut acc: u32 = 0;
    let mut i: usize = 0;
    proof {
        assert(g@.take(0) =~= Seq::<char>::empty());
    }
    while i < n
        invariant
            i <= n,
            n == g@.len(),
            n <= 4,
            v@ == g@,
            forall|j: int| 0 <= j < n ==> is_hex_digit(#[trigger] g@[j]),
            acc == h16_val(g@.take(i as int)),
            acc < 0x10000,
        decreases n - i,
    {
        let c = v[i];
        let d: u32 = if '0' <= c && c <= '9' {
            c as u32 - '0' as u32
        } else if 'a' <= c && c <= 'f' {
            c as u32 - 'a' as u32 + 10
        } else {
            c as u32 - 'A' as u32 + 10
        };
        proof {
            let p = g@.take(i as int);
            let q = g@.take(i + 1);
            assert(q.drop_last() =~= p);
            assert(q.last() == g@[i as int]);
            lemma_h16_val_bound(q);
        }
        acc = acc * 16 + d;
        i += 1;
    }
    proof {
        assert(g@.take(n as int) =~= g@);
    }
    acc as u16
}

/// The dotted quad as two 16-bit words.
pub open spec fn v4_words(g: Seq<char>) -> Seq<u16> {
    let p = split_spec(g, '.');
    seq![
        (digits_val(p[0]) * 256 + digits_val(p[1])) as u16,
        (digits_val(p[2]) * 256 + digits_val(p[3])) as u16,
    ]
}

/// Extract the two 16-bit words of a valid dotted quad.
fn v4_words_of(g: &str) -> (r: Vec<u16>)
    requires
        valid_ipv4(g@),
    ensures
        r@ == v4_words(g@),
        r@.len() == 2,
{
    let parts = split(g, '.');
    let ghost p = split_spec(g@, '.');
    proof {
        assert(strings_view(parts@).len() == parts@.len());
    }
    let mut words: Vec<u16> = Vec::new();
    let a = octet_value(&parts, 0);
    let b = octet_value(&parts, 1);
    let c = octet_value(&parts, 2);
    let d = octet_value(&parts, 3);
    words.push(a * 256 + b);
    words.push(c * 256 + d);
    proof {
        assert(words@ =~= v4_words(g@));
    }
    words
}

/// Value of the `i`th octet of a valid dotted quad.
fn octet_value(parts: &Vec<String>, i: usize) -> (r: u16)
    requires
        i < parts@.len(),
        valid_ipv4_octet(strings_view(parts@)[i as int]),
    ensures
        r == digits_val(strings_view(parts@)[i as int]),
        r <= 255,
{
    let v = str_chars(parts[i].as_str());
    proof {
        assert(strings_view(parts@)[i as int] == parts@[i as int]@);
        assert(v@.skip(0) =~= v@);
    }
    match parse_digits(&v, 0, 255) {
        Some(x) => x as u16,
        None => {
            proof {
                assert(false);
            }
            0
        },
    }
}

/// The values of a sequence of hex groups.
pub open spec fn h16s(p: Seq<Seq<char>>) -> Seq<u16> {
    p.map_values(|g: Seq<char>| h16_val(g) as u16)
}

/// `n` zero groups.
pub open spec fn zeros16(n: int) -> Seq<u16> {
    Seq::new(n as nat, |i: int| 0u16)
}

/// The eight 16-bit groups denoted by a valid IPv6 literal.
pub open spec fn ipv6_groups(s: Seq<char>) -> Seq<u16> {
    match crate::cursor::find_from(s, 0, seq![':', ':']) {
        None => {
            let p = split_spec(s, ':');
            if p.len() == 8 {
                h16s(p)
            } else {
                h16s(p.take(6)) + v4_words(p[6])
            }
        },
        Some(dc) => {
            let left = s.take(dc);
            let right = s.skip(dc + 2);
            let lp = if left.len() == 0 {
                Seq::<Seq<char>>::empty()
            } else {
                split_spec(left, ':')
            };
            let rp = if right.len() == 0 {
                Seq::<Seq<char>>::empty()
            } else {
                split_spec(right, ':')
            };
            let lg = h16s(lp);
            let rg = if rp.len() >= 1 && valid_ipv4(rp.last()) {
                h16s(rp.take(rp.len() - 1)) + v4_words(rp.last())
            } else {
                h16s(rp)
            };
            lg + zeros16(8 - lg.len() - rg.len()) + rg
        },
    }
}

/// Append the values of the hex groups `parts[from..to]`.
fn push_h16s(out: &mut Vec<u16>, parts: &Vec<String>, from: usize, to: usize)
    requires
        from <= to <= parts@.len(),
        all_h16(strings_view(parts@), from as int, to as int),
    ensures
        final(out)@ == old(out)@ + h16s(strings_view(parts@).subrange(from as int, to as int)),
{
    let ghost base = out@;
    let mut i: usize = from;
    proof {
        assert(base + h16s(strings_view(parts@).subrange(from as int, from as int)) =~= base);
    }
    while i < to
        invariant
            from <= i <= to <= parts@.len(),
            all_h16(strings_view(parts@), from as int, to as int),
            out@ == base + h16s(strings_view(parts@).subrange(from as int, i as int)),
        decreases to - i,
    {
        proof {
            assert(strings_view(parts@)[i as int] == parts@[i as int]@);
        }
        let v = h16_value(parts[i].as_str());
        out.push(v);
        proof {
            assert(h16s(strings_view(parts@).subrange(from as int, i + 1)) =~= h16s(
                strings_view(parts@).subrange(from as int, i as int),
            ).push(h16_val(strings_view(parts@)[i as int]) as u16));
            assert(out@ =~= base + h16s(
                strings_view(parts@).subrange(from as int, i + 1),
            ));
        }
        i += 1;
    }
}

/// Append `k` zero groups.
fn push_zeros(out: &mut Vec<u16>, k: usize)
    ensures
        final(out)@ == old(out)@ + zeros16(k as int),
{
    let ghost base = out@;
    let mut i: usize = 0;
    proof {
        assert(base + zeros16(0) =~= base);
    }
    while i < k
        invariant
            i <= k,
            out@ == base + zeros16(i as int),
        decreases k - i,
    {
        out.push(0u16);
        proof {
            assert(out@ =~= base + zeros16(i + 1));
        }
        i += 1;
    }
}

/// Extract the eight 16-bit groups of a valid IPv6 literal.
fn ipv6_group_vec(s: &str) -> (r: Vec<u16>)
    requires
        valid_ipv6(s@),
    ensures
        r@ == ipv6_groups(s@),
        r@.len() == 8,
{
    proof {
        reveal_strlit("::");
        assert("::"@.len() == 2 && "::"@[0] == ':' && "::"@[1] == ':');
        assert("::"@ =~= seq![':', ':']);
    }
    let owned = s.to_owned();
    match crate::cursor::find(0, &owned, &crate::cursor::Patt::Str("::")) {
        Err(_) => {
            let parts = split(s, ':');
            let ghost p = split_spec(s@, ':');
            proof {
                assert(strings_view(parts@).len() == parts@.len());
            }
            let mut out: Vec<u16> = Vec::new();
            if parts.len() == 8 {
                push_h16s(&mut out, &parts, 0, 8);
                proof {
                    assert(strings_view(parts@).subrange(0, 8) =~= p);
                    assert(out@ =~= h16s(p));
                }
            } else {
                push_h16s(&mut out, &parts, 0, 6);
                proof {
                    assert(strings_view(parts@)[6] == parts@[6]@);
                }
                let tail = v4_words_of(parts[6].as_str());
                out.push(tail[0]);
                out.push(tail[1]);
                proof {
                    assert(strings_view(parts@).subrange(0, 6) =~= p.take(6));
                    assert(out@ =~= h16s(p.take(6)) + v4_words(p[6]));
                }
            }
            out
        },
        Ok(found) => {
            let pos = found.1;
            let n = owned.as_str().unicode_len();
            let ghost dcp = crate::cursor::find_from(s@, 0, seq![':', ':'])->Some_0;
            proof {
                assert(owned@ == s@);
                crate::cursor::lemma_find_from_bounds(s@, 0, seq![':', ':']);
                assert(pos == dcp && dcp + 2 <= s@.len());
            }
            let left = owned.as_str().substring_char(0, pos);
            let right = owned.as_str().substring_char(pos + 2, n);
            proof {
                assert(left@ =~= s@.take(dcp));
                assert(right@ =~= s@.skip(dcp + 2));
            }
            let mut out: Vec<u16> = Vec::new();
            if left.unicode_len() > 0 {
                let lparts = split(left, ':');
                proof {
                    assert(strings_view(lparts@).len() == lparts@.len());
                    assert(strings_view(lparts@) == split_spec(s@.take(dcp), ':'));
                }
                let lcount = lparts.len();
                push_h16s(&mut out, &lparts, 0, lcount);
                proof {
                    assert(strings_view(lparts@).subrange(0, lcount as int) =~= strings_view(
                        lparts@,
                    ));
                }
            } else {
                proof {
                    assert(h16s(Seq::<Seq<char>>::empty()) =~= Seq::<u16>::empty());
                }
            }
            let mut rg: Vec<u16> = Vec::new();
            if right.unicode_len() > 0 {
                let rparts = split(right, ':');
                proof {
                    lemma_split_nonempty(right@, ':');
                    assert(strings_view(rparts@).len() == rparts@.len());
                    assert(strings_view(rparts@) == split_spec(s@.skip(dcp + 2), ':'));
                }
                let rcount = rparts.len();
                proof {
                    assert(strings_view(rparts@)[rcount - 1] == rparts@[rcount - 1]@);
                    assert(strings_view(rparts@).last() == rparts@[rcount - 1]@);
                }
                if check_ipv4(rparts[rcount - 1].as_str()) {
                    push_h16s(&mut rg, &rparts, 0, rcount - 1);
                    let tail = v4_words_of(rparts[rcount - 1].as_str());
                    rg.push(tail[0]);
                    rg.push(tail[1]);
                    proof {
                        assert(strings_view(rparts@).subrange(0, rcount - 1) =~= strings_view(
                            rparts@,
                        ).take(rcount - 1));
                        assert(rg@ =~= h16s(strings_view(rparts@).take(rcount - 1)) + v4_words(
                            strings_view(rparts@).last(),
                        ));
                    }
                } else {
                    push_h16s(&mut rg, &rparts, 0, rcount);
                    proof {
                        assert(strings_view(rparts@).subrange(0, rcount as int) =~= strings_view(
                            rparts@,
                        ));
                    }
                }
            } else {
                proof {
                    assert(h16s(Seq::<Seq<char>>::empty()) =~= Seq::<u16>::empty());
                }
            }
            let fill = 8 - out.len() - rg.len();
            push_zeros(&mut out, fill);
            let mut tail_groups = rg;
            out.append(&mut tail_groups);
            proof {
                assert(out@ =~= ipv6_groups(s@));
            }
            out
        },
    }
}

/// One lowercase hex digit.
pub open spec fn hex_digit_char(v: int) -> char {
    if v < 10 {
        ('0' as int + v) as char
    } else {
        ('a' as int + v - 10) as char
    }
}

/// Minimal lowercase hex form of a group value.
pub open spec fn hex_str(v: int) -> Seq<char> {
    if v < 16 {
        seq![hex_digit_char(v)]
    } else if v < 256 {
        seq![hex_digit_char(v / 16), hex_digit_char(v % 16)]
    } else if v < 4096 {
        seq![hex_digit_char(v / 256), hex_digit_char((v / 16) % 16), hex_digit_char(v % 16)]
    } else {
        seq![
            hex_digit_char(v / 4096),
            hex_digit_char((v / 256) % 16),
            hex_digit_char((v / 16) % 16),
            hex_digit_char(v % 16),
        ]
    }
}

/// One decimal digit.
pub open spec fn dec_digit_char(v: int) -> char {
    ('0' as int + v) as char
}

/// Minimal decimal form of an octet value.
pub open spec fn dec_str(v: int) -> Seq<char> {
    if v < 10 {
        seq![dec_digit_char(v)]
    } else if v < 100 {
        seq![dec_digit_char(v / 10), dec_digit_char(v % 10)]
    } else {
        seq![dec_digit_char(v / 100), dec_digit_char((v / 10) % 10), dec_digit_char(v % 10)]
    }
}

/// The dotted-quad rendering of the two trailing words.
pub open spec fn v4_str(w1: int, w2: int) -> Seq<char> {
    dec_str(w1 / 256) + seq!['.'] + dec_str(w1 % 256) + seq!['.'] + dec_str(w2 / 256)
        + seq!['.'] + dec_str(w2 % 256)
}

/// The groups rendered as hex, separated by colons.
pub open spec fn join_hex(g: Seq<u16>) -> Seq<char>
    decreases g.len(),
{
    if g.len() == 0 {
        Seq::empty()
    } else if g.len() == 1 {
        hex_str(g[0] as int)
    } else {
        hex_str(g[0] as int) + seq![':'] + join_hex(g.skip(1))
    }
}

/// Length of the zero-group run starting at `i`.
pub open spec fn zrun(g: Seq<u16>, i: int) -> int
    decreases g.len() - i,
{
    if i < 0 || i >= g.len() || g[i] != 0 {
        0
    } else {
        1 + zrun(g, i + 1)
    }
}

/// Start of the leftmost longest zero run at or after `i` (the length
/// when no zero follows).
pub open spec fn best_zero_start(g: Seq<u16>, i: int) -> int
    decreases g.len() - i,
{
    if i >= g.len() {
        i
    } else {
        let rest = best_zero_start(g, i + 1);
        if zrun(g, i) >= zrun(g, rest) {
            i
        } else {
            rest
        }
    }
}

/// The first six groups mark an IPv4-mapped address.
pub open spec fn is_v4_mapped(g: Seq<u16>) -> bool {
    g[0] == 0 && g[1] == 0 && g[2] == 0 && g[3] == 0 && g[4] == 0 && g[5] == 0xffff
}

/// The canonical text of eight groups: the IPv4-mapped form when it
/// applies, else hex groups with the leftmost longest zero run of at
/// least two compressed to `::`.
pub open spec fn canonical_v6(g: Seq<u16>) -> Seq<char> {
    if is_v4_mapped(g) {
        seq![':', ':', 'f', 'f', 'f', 'f', ':'] + v4_str(g[6] as int, g[7] as int)
    } else {
        let b = best_zero_start(g, 0);
        let l = zrun(g, b);
        if l >= 2 {
            join_hex(g.take(b)) + seq![':', ':'] + join_hex(g.skip(b + l))
        } else {
            join_hex(g)
        }
    }
}

/// The canonical text of a valid address literal: a valid dotted quad
/// is already canonical; an IPv6 literal renders from its groups.
pub open spec fn canonical_ip(s: Seq<char>) -> Seq<char> {
    if valid_ipv4(s) {
        s
    } else {
        canonical_v6(ipv6_groups(s))
    }
}

fn hex_digit(v: u16) -> (c: char)
    requires
        v < 16,
    ensures
        c == hex_digit_char(v as int),
{
    if v < 10 {
        (('0' as u8) + v as u8) as char
    } else {
        (('a' as u8) + (v - 10) as u8) as char
    }
}

fn dec_digit(v: u16) -> (c: char)
    requires
        v < 10,
    ensures
        c == dec_digit_char(v as int),
{
    (('0' as u8) + v as u8) as char
}

/// Append the minimal hex form of `v`.
fn push_hex(out: &mut Vec<char>, v: u16)
    ensures
        final(out)@ == old(out)@ + hex_str(v as int),
{
    if v < 16 {
        out.push(hex_digit(v));
    } else if v < 256 {
        out.push(hex_digit(v / 16));
        out.push(hex_digit(v % 16));
    } else if v < 4096 {
        out.push(hex_digit(v / 256));
        out.push(hex_digit((v / 16) % 16));
        out.push(hex_digit(v % 16));
    } else {
        out.push(hex_digit(v / 4096));
        out.push(hex_digit((v / 256) % 16));
        out.push(hex_digit((v / 16) % 16));
        out.push(hex_digit(v % 16));
    }
    proof {
        assert(out@ =~= old(out)@ + hex_str(v as int));
    }
}

/// Append the minimal decimal form of `v`.
fn push_dec(out: &mut Vec<char>, v: u16)
    requires
        v < 256,
    ensures
        final(out)@ == old(out)@ + dec_str(v as int),
{
    if v < 10 {
        out.push(dec_digit(v));
    } else if v < 100 {
        out.push(dec_digit(v / 10));
        out.push(dec_digit(v % 10));
    } else {
        out.push(dec_digit(v / 100));
        out.push(dec_digit((v / 10) % 10));
        out.push(dec_digit(v % 10));
    }
    proof {
        assert(out@ =~= old(out)@ + dec_str(v as int));
    }
}

/// Append `g[from..to]` as colon-separated hex groups.
fn push_join(out: &mut Vec<char>, g: &Vec<u16>, from: usize, to: usize)
    requires
        from <= to <= g@.len(),
    ensures
        final(out)@ == old(out)@ + join_hex(g@.subrange(from as int, to as int)),
{
    let ghost base = out@;
    let mut i: usize = from;
    proof {
        assert(join_hex(g@.subrange(from as int, from as int)) =~= Seq::<char>::empty());
        assert(base + join_hex(g@.subrange(from as int, from as int)) =~= base);
    }
    while i < to
        invariant
            from <= i <= to <= g@.len(),
            out@ + join_hex(g@.subrange(i as int, to as int)) == base + join_hex(
                g@.subrange(from as int, to as int),
            ),
        decreases to - i,
    {
        let ghost t = g@.subrange(i as int, to as int);
        let ghost before = out@;
        proof {
            assert(t.skip(1) =~= g@.subrange(i + 1, to as int));
            assert(t[0] == g@[i as int]);
        }
        push_hex(out, g[i]);
        if i + 1 < to {
            out.push(':');
        }
        proof {
            if t.len() == 1 {
                assert(out@ =~= before + hex_str(t[0] as int));
                assert(join_hex(t) == hex_str(t[0] as int));
            } else {
                assert(out@ =~= before + (hex_str(t[0] as int) + seq![':']));
                assert(join_hex(t) == hex_str(t[0] as int) + seq![':'] + join_hex(t.skip(1)));
            }
            assert(out@ + join_hex(g@.subrange(i + 1, to as int)) =~= base + join_hex(
                g@.subrange(from as int, to as int),
            ));
        }
        i += 1;
    }
    proof {
        assert(join_hex(g@.subrange(to as int, to as int)) =~= Seq::<char>::empty());
        assert(out@ =~= out@ + join_hex(g@.subrange(to as int, to as int)));
    }
}

/// Length of the zero run starting at `i`.
fn zrun_at(g: &Vec<u16>, i: usize) -> (r: usize)
    requires
        i <= g@.len(),
    ensures
        r == zrun(g@, i as int),
        r <= g@.len() - i,
    decreases g@.len() - i,
{
    if i == g.len() || g[i] != 0 {
        0
    } else {
        1 + zrun_at(g, i + 1)
    }
}

/// Start of the leftmost longest zero run at or after `i`.
fn best_start(g: &Vec<u16>, i: usize) -> (r: usize)
    requires
        i <= g@.len(),
    ensures
        r == best_zero_start(g@, i as int),
        i <= r <= g@.len(),
    decreases g@.len() - i,
{
    if i == g.len() {
        i
    } else {
        let rest = best_start(g, i + 1);
        if zrun_at(g, i) >= zrun_at(g, rest) {
            i
        } else {
            rest
        }
    }
}

/// Render eight groups in canonical form.
fn render_v6(g: &Vec<u16>) -> (r: String)
    requires
        g@.len() == 8,
    ensures
        r@ == canonical_v6(g@),
{
    let mut out: Vec<char> = Vec::new();
    if g[0] == 0 && g[1] == 0 && g[2] == 0 && g[3] == 0 && g[4] == 0 && g[5] == 0xffff {
        out.push(':');
        out.push(':');
        out.push('f');
        out.push('f');
        out.push('f');
        out.push('f');
        out.push(':');
        push_dec(&mut out, g[6] / 256);
        out.push('.');
        push_dec(&mut out, g[6] % 256);
        out.push('.');
        push_dec(&mut out, g[7] / 256);
        out.push('.');
        push_dec(&mut out, g[7] % 256);
        proof {
            assert(out@ =~= canonical_v6(g@));
        }
    } else {
        let b = best_start(g, 0);
        let l = zrun_at(g, b);
        if l >= 2 {
            push_join(&mut out, g, 0, b);
            out.push(':');
            out.push(':');
            push_join(&mut out, g, b + l, 8);
            proof {
                assert(g@.subrange(0, b as int) =~= g@.take(b as int));
                assert(g@.subrange(b + l, 8) =~= g@.skip(b + l));
                assert(out@ =~= canonical_v6(g@));
            }
        } else {
            push_join(&mut out, g, 0, 8);
            proof {
                assert(g@.subrange(0, 8) =~= g@);
                assert(out@ =~= canonical_v6(g@));
            }
        }
    }
    chars_to_string(&out)
}

/// The canonical text of a valid address literal, as its parsed form
/// renders back to text.
pub fn canonicalize_ip(s: &str) -> (r: String)
    requires
        is_ip(s@),
    ensures
        r@ == canonical_ip(s@),
{
    if check_ipv4(s) {
        s.to_owned()
    } else {
        let groups = ipv6_group_vec(s);
        render_v6(&groups)
    }
}

} // verus!

