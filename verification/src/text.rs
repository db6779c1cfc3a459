//! Character-sequence utilities: splitting on a separator, substring
//! search, whitespace trimming, and decimal rendering of integers.

use vstd::prelude::*;
use vstd::string::*;

verus! {

/// Splitting a character sequence on a separator, exactly as the
/// executable [`split_str`] does: every maximal run between separators
/// becomes one piece, so `n` separators give `n + 1` pieces (empty runs
/// included).
pub open spec fn spec_split(s: Seq<char>, sep: char) -> Seq<Seq<char>>
    decreases s.len(),
{
    if s.len() == 0 {
        seq![Seq::<char>::empty()]
    } else if s[0] == sep {
        seq![Seq::<char>::empty()] + spec_split(s.drop_first(), sep)
    } else {
        let rest = spec_split(s.drop_first(), sep);
        seq![seq![s[0]] + rest[0]] + rest.skip(1)
    }
}

pub proof fn lemma_split_len(s: Seq<char>, sep: char)
    ensures
        spec_split(s, sep).len() >= 1,
    decreases s.len(),
{
    if s.len() != 0 {
        lemma_split_len(s.drop_first(), sep);
    }
}

/// A sequence free of the separator splits into itself alone.
pub proof fn lemma_split_no_sep(s: Seq<char>, sep: char)
    requires
        forall|i: int| 0 <= i < s.len() ==> s[i] != sep,
    ensures
        spec_split(s, sep) =~= seq![s],
    decreases s.len(),
{
    if s.len() == 0 {
        assert(spec_split(s, sep) == seq![Seq::<char>::empty()]);
        assert(s =~= Seq::<char>::empty());
    } else {
        assert(forall|i: int|
            0 <= i < s.drop_first().len() ==> s.drop_first()[i] != sep);
        lemma_split_no_sep(s.drop_first(), sep);
        let rest = spec_split(s.drop_first(), sep);
        assert(rest == seq![s.drop_first()]);
        assert(seq![s[0]] + s.drop_first() =~= s);
        assert(rest.skip(1) =~= Seq::<Seq<char>>::empty());
        assert(spec_split(s, sep) =~= seq![s]);
    }
}

/// Splitting `a ++ sep ++ b`, with no separator inside `a`, yields `a`
/// followed by the split of `b`.
pub proof fn lemma_split_append(a: Seq<char>, b: Seq<char>, sep: char)
    requires
        forall|i: int| 0 <= i < a.len() ==> a[i] != sep,
    ensures
        spec_split(a + seq![sep] + b, sep) =~= seq![a] + spec_split(b, sep),
    decreases a.len(),
{
    let s = a + seq![sep] + b;
    if a.len() == 0 {
        assert(s[0] == sep);
        assert(s.drop_first() =~= b);
        assert(spec_split(s, sep) == seq![Seq::<char>::empty()] + spec_split(b, sep));
        assert(a =~= Seq::<char>::empty());
    } else {
        assert(s[0] == a[0]);
        assert(s[0] != sep);
        assert(s.drop_first() =~= a.drop_first() + seq![sep] + b);
        assert(forall|i: int|
            0 <= i < a.drop_first().len() ==> a.drop_first()[i] != sep);
        lemma_split_append(a.drop_first(), b, sep);
        let rest = spec_split(s.drop_first(), sep);
        assert(rest == seq![a.drop_first()] + spec_split(b, sep));
        lemma_split_len(b, sep);
        assert(rest[0] == a.drop_first());
        assert(seq![s[0]] + rest[0] =~= a);
        assert(rest.skip(1) =~= spec_split(b, sep));
    }
}

/// Split `s` on the character `sep`, returning the pieces in order.
pub fn split_str(s: &str, sep: char) -> (parts: Vec<String>)
    ensures
        parts.deep_view() == spec_split(s@, sep),
{
    let n = s.unicode_len();
    let mut parts: Vec<String> = Vec::new();
    let mut start: usize = 0;
    let mut i: usize = 0;
    proof {
        assert(s@.skip(0) =~= s@);
        assert(parts.deep_view() =~= Seq::<Seq<char>>::empty());
        assert(Seq::<Seq<char>>::empty() + spec_split(s@, sep) =~= spec_split(s@, sep));
    }
    while i < n
        invariant
            start <= i <= n,
            n == s@.len(),
            forall|m: int| start <= m < i ==> s@[m] != sep,
            spec_split(s@, sep) =~= parts.deep_view() + spec_split(s@.skip(start as int), sep),
        decreases n - i,
    {
        if s.get_char(i) == sep {
            let piece = s.substring_char(start, i);
            let ghost old_parts = parts.deep_view();
            parts.push(String::from_str(piece));
            proof {
                let a = s@.subrange(start as int, i as int);
                let b = s@.skip(i as int + 1);
                assert(s@.skip(start as int) =~= a + seq![sep] + b);
                lemma_split_append(a, b, sep);
                assert(parts.deep_view() =~= old_parts.push(a));
                assert(old_parts.push(a) =~= old_parts + seq![a]);
                assert(parts.deep_view() + spec_split(b, sep)
                    =~= old_parts + (seq![a] + spec_split(b, sep)));
            }
            start = i + 1;
        }
        i = i + 1;
    }
    let last = s.substring_char(start, n);
    let ghost old_parts = parts.deep_view();
    parts.push(String::from_str(last));
    proof {
        let tail = s@.skip(start as int);
        assert(s@.subrange(start as int, n as int) =~= tail);
        lemma_split_no_sep(tail, sep);
        assert(parts.deep_view() =~= old_parts.push(tail));
        assert(old_parts.push(tail) =~= old_parts + seq![tail]);
    }
    parts
}

/// The index of the first occurrence of `c` in `s`, or `s.len()` when
/// `c` does not occur.
pub open spec fn first_index(s: Seq<char>, c: char) -> int
    decreases s.len(),
{
    if s.len() == 0 {
        0
    } else if s[0] == c {
        0
    } else {
        1 + first_index(s.drop_first(), c)
    }
}

pub proof fn lemma_first_index(s: Seq<char>, c: char)
    ensures
        0 <= first_index(s, c) <= s.len(),
        forall|i: int| 0 <= i < first_index(s, c) ==> s[i] != c,
        first_index(s, c) < s.len() ==> s[first_index(s, c)] == c,
    decreases s.len(),
{
    if s.len() > 0 && s[0] != c {
        lemma_first_index(s.drop_first(), c);
        assert(forall|i: int| 1 <= i < s.len() ==> s[i] == s.drop_first()[i - 1]);
    }
}

/// Find the first occurrence of the character `c` in `s`.
pub fn find_char(s: &str, c: char) -> (r: Option<usize>)
    ensures
        r matches Some(i) ==> i < s@.len() && s@[i as int] == c && (forall|j: int|
            0 <= j < i ==> s@[j] != c),
        r is None ==> forall|j: int| 0 <= j < s@.len() ==> s@[j] != c,
{
    let n = s.unicode_len();
    let mut i: usize = 0;
    while i < n
        invariant
            i <= n,
            n == s@.len(),
            forall|j: int| 0 <= j < i ==> s@[j] != c,
        decreases n - i,
    {
        if s.get_char(i) == c {
            return Some(i);
        }
        i = i + 1;
    }
    None
}

/// Whether `pat` occurs in `s` starting at index `i`.
pub open spec fn match_at(s: Seq<char>, pat: Seq<char>, i: int) -> bool {
    0 <= i && i + pat.len() <= s.len() && s.subrange(i, i + pat.len()) == pat
}

/// The index of the leftmost occurrence of `pat` in `s`; `s.len()` when
/// `pat` does not occur.
pub open spec fn find_sub(s: Seq<char>, pat: Seq<char>) -> int
    decreases s.len(),
{
    if match_at(s, pat, 0) {
        0
    } else if s.len() == 0 {
        0
    } else {
        1 + find_sub(s.drop_first(), pat)
    }
}

pub proof fn lemma_find_sub(s: Seq<char>, pat: Seq<char>)
    ensures
        0 <= find_sub(s, pat) <= s.len(),
        forall|i: int| 0 <= i < find_sub(s, pat) ==> !match_at(s, pat, i),
        (exists|i: int| match_at(s, pat, i)) ==> match_at(s, pat, find_sub(s, pat)),
    decreases s.len(),
{
    if !match_at(s, pat, 0) && s.len() > 0 {
        lemma_find_sub(s.drop_first(), pat);
        assert forall|i: int| 0 <= i < find_sub(s, pat) implies !(#[trigger] match_at(
            s,
            pat,
            i,
        )) by {
            if i >= 1 && match_at(s, pat, i) {
                assert(s.drop_first().subrange(i - 1, i - 1 + pat.len()) =~= s.subrange(
                    i,
                    i + pat.len(),
                ));
                assert(match_at(s.drop_first(), pat, i - 1));
                assert(false);
            }
        }
        if exists|i: int| match_at(s, pat, i) {
            let w = choose|i: int| match_at(s, pat, i);
            assert(w >= 1);
            assert(s.drop_first().subrange(w - 1, w - 1 + pat.len()) =~= s.subrange(
                w,
                w + pat.len(),
            ));
            assert(match_at(s.drop_first(), pat, w - 1));
            let fs = find_sub(s.drop_first(), pat);
            assert(match_at(s.drop_first(), pat, fs));
            assert(s.subrange(fs + 1, fs + 1 + pat.len()) =~= s.drop_first().subrange(
                fs,
                fs + pat.len(),
            ));
            assert(match_at(s, pat, fs + 1));
        }
    }
}

/// Find the leftmost occurrence of `pat` in `s`.
pub fn find_substring(s: &str, pat: &str) -> (r: Option<usize>)
    ensures
        r matches Some(i) ==> match_at(s@, pat@, i as int) && (forall|j: int|
            j < i ==> !match_at(s@, pat@, j)),
        r is None ==> forall|j: int| !match_at(s@, pat@, j),
{
    let n = s.unicode_len();
    let m = pat.unicode_len();
    if m > n {
        return None;
    }
    if m == 0 {
        proof {
            assert(s@.subrange(0, 0) =~= pat@);
        }
        return Some(0);
    }
    let mut i: usize = 0;
    while i <= n - m
        invariant
            1 <= m <= n,
            n == s@.len(),
            m == pat@.len(),
            i <= n - m + 1,
            forall|j: int| j < i ==> !match_at(s@, pat@, j),
        decreases n - m - i + 1,
    {
        let mut k: usize = 0;
        let mut eq = true;
        while k < m && eq
            invariant
                k <= m,
                m <= n,
                i <= n - m,
                n == s@.len(),
                m == pat@.len(),
                eq ==> forall|l: int| 0 <= l < k ==> s@[i + l] == pat@[l],
                !eq ==> !match_at(s@, pat@, i as int),
            decreases m - k, (if eq { 1int } else { 0int }),
        {
            if s.get_char(i + k) != pat.get_char(k) {
                proof {
                    assert(s@.subrange(i as int, i + m as int)[k as int] == s@[i + k]);
                }
                eq = false;
            } else {
                k = k + 1;
            }
        }
        if eq {
            proof {
                assert(s@.subrange(i as int, i + m as int) =~= pat@);
            }
            return Some(i);
        }
        i = i + 1;
    }
    proof {
        assert forall|j: int| !match_at(s@, pat@, j) by {
            if j >= i {
                assert(j + m > n);
            }
        }
    }
    None
}

/// The characters the Unicode `White_Space` property covers, the set the
/// standard library's trimming removes.
pub open spec fn is_space(c: char) -> bool {
    ||| c == ' '
    ||| c == '\t'
    ||| c == '\n'
    ||| c == '\u{0b}'
    ||| c == '\u{0c}'
    ||| c == '\r'
    ||| c == '\u{85}'
    ||| c == '\u{a0}'
    ||| c == '\u{1680}'
    ||| ('\u{2000}' <= c && c <= '\u{200a}')
    ||| c == '\u{2028}'
    ||| c == '\u{2029}'
    ||| c == '\u{202f}'
    ||| c == '\u{205f}'
    ||| c == '\u{3000}'
}

fn is_space_char(c: char) -> (b: bool)
    ensures
        b == is_space(c),
{
    c == ' ' || c == '\t' || c == '\n' || c == '\u{0b}' || c == '\u{0c}' || c == '\r' || c
        == '\u{85}' || c == '\u{a0}' || c == '\u{1680}' || ('\u{2000}' <= c && c <= '\u{200a}') || c
        == '\u{2028}' || c == '\u{2029}' || c == '\u{202f}' || c == '\u{205f}' || c == '\u{3000}'
}

pub open spec fn trim_start(s: Seq<char>) -> Seq<char>
    decreases s.len(),
{
    if s.len() > 0 && is_space(s[0]) {
        trim_start(s.drop_first())
    } else {
        s
    }
}

pub open spec fn trim_end(s: Seq<char>) -> Seq<char>
    decreases s.len(),
{
    if s.len() > 0 && is_space(s.last()) {
        trim_end(s.drop_last())
    } else {
        s
    }
}

/// `s` without its leading and trailing whitespace.
pub open spec fn spec_trim(s: Seq<char>) -> Seq<char> {
    trim_end(trim_start(s))
}

proof fn lemma_trim_start_skip(s: Seq<char>, a: int)
    requires
        0 <= a <= s.len(),
        forall|i: int| 0 <= i < a ==> is_space(s[i]),
    ensures
        trim_start(s) == trim_start(s.skip(a)),
    decreases a,
{
    if a > 0 {
        assert(is_space(s[0]));
        assert(s.drop_first().skip(a - 1) =~= s.skip(a));
        assert(forall|i: int| 0 <= i < a - 1 ==> is_space(s.drop_first()[i]));
        lemma_trim_start_skip(s.drop_first(), a - 1);
    } else {
        assert(s.skip(0) =~= s);
    }
}

proof fn lemma_trim_end_take(s: Seq<char>, b: int)
    requires
        0 <= b <= s.len(),
        forall|i: int| b <= i < s.len() ==> is_space(s[i]),
    ensures
        trim_end(s) == trim_end(s.take(b)),
    decreases s.len() - b,
{
    if b < s.len() {
        assert(is_space(s.last()));
        assert(s.drop_last().take(b) =~= s.take(b));
        assert(forall|i: int| b <= i < s.drop_last().len() ==> is_space(s.drop_last()[i]));
        lemma_trim_end_take(s.drop_last(), b);
    } else {
        assert(s.take(s.len() as int) =~= s);
    }
}

/// Trim surrounding whitespace, as the prefetch tool's output is cleaned
/// before it is recorded as a hash.
pub fn trim_ws(s: &str) -> (r: String)
    ensures
        r@ == spec_trim(s@),
{
    let n = s.unicode_len();
    let mut a: usize = 0;
    while a < n && is_space_char(s.get_char(a))
        invariant
            a <= n,
            n == s@.len(),
            forall|i: int| 0 <= i < a ==> is_space(s@[i]),
        decreases n - a,
    {
        a = a + 1;
    }
    let mut b: usize = n;
    while b > a && is_space_char(s.get_char(b - 1))
        invariant
            a <= b <= n,
            n == s@.len(),
            forall|i: int| b <= i < n ==> is_space(s@[i]),
        decreases b,
    {
        b = b - 1;
    }
    let t = s.substring_char(a, b);
    proof {
        lemma_trim_start_skip(s@, a as int);
        let u = s@.skip(a as int);
        if a < n {
            assert(u[0] == s@[a as int]);
        }
        assert(trim_start(u) == u);
        assert forall|i: int| b - a <= i < u.len() implies is_space(u[i]) by {
            assert(u[i] == s@[a + i]);
        }
        lemma_trim_end_take(u, b - a);
        let v = u.take(b - a);
        assert(v =~= s@.subrange(a as int, b as int));
        if b > a {
            assert(v.last() == s@[b - 1]);
        }
        assert(trim_end(v) == v);
    }
    String::from_str(t)
}

/// The decimal digit character for `d`.
pub open spec fn dec_digit(d: int) -> char {
    if d == 0 {
        '0'
    } else if d == 1 {
        '1'
    } else if d == 2 {
        '2'
    } else if d == 3 {
        '3'
    } else if d == 4 {
        '4'
    } else if d == 5 {
        '5'
    } else if d == 6 {
        '6'
    } else if d == 7 {
        '7'
    } else if d == 8 {
        '8'
    } else {
        '9'
    }
}

/// The usual decimal rendering of a non-negative integer, no leading
/// zeroes (a single `0` for zero).
pub open spec fn spec_dec(n: int) -> Seq<char>
    decreases n,
{
    if n < 10 {
        seq![dec_digit(n)]
    } else {
        spec_dec(n / 10).push(dec_digit(n % 10))
    }
}

fn push_digit(d: u64, out: &mut String)
    requires
        d < 10,
    ensures
        final(out)@ == old(out)@ + seq![dec_digit(d as int)],
{
    if d == 0 {
        out.append("0");
        proof {
            reveal_strlit("0");
            assert("0"@ =~= seq![dec_digit(0)]);
        }
    } else if d == 1 {
        out.append("1");
        proof {
            reveal_strlit("1");
            assert("1"@ =~= seq![dec_digit(1)]);
        }
    } else if d == 2 {
        out.append("2");
        proof {
            reveal_strlit("2");
            assert("2"@ =~= seq![dec_digit(2)]);
        }
    } else if d == 3 {
        out.append("3");
        proof {
            reveal_strlit("3");
            assert("3"@ =~= seq![dec_digit(3)]);
        }
    } else if d == 4 {
        out.append("4");
        proof {
            reveal_strlit("4");
            assert("4"@ =~= seq![dec_digit(4)]);
        }
    } else if d == 5 {
        out.append("5");
        proof {
            reveal_strlit("5");
            assert("5"@ =~= seq![dec_digit(5)]);
        }
    } else if d == 6 {
        out.append("6");
        proof {
            reveal_strlit("6");
            assert("6"@ =~= seq![dec_digit(6)]);
        }
    } else if d == 7 {
        out.append("7");
        proof {
            reveal_strlit("7");
            assert("7"@ =~= seq![dec_digit(7)]);
        }
    } else if d == 8 {
        out.append("8");
        proof {
            reveal_strlit("8");
            assert("8"@ =~= seq![dec_digit(8)]);
        }
    } else {
        out.append("9");
        proof {
            reveal_strlit("9");
            assert("9"@ =~= seq![dec_digit(9)]);
        }
    }
}

fn push_decimal(n: u64, out: &mut String)
    ensures
        final(out)@ == old(out)@ + spec_dec(n as int),
    decreases n,
{
    if n >= 10 {
        push_decimal(n / 10, out);
    }
    push_digit(n % 10, out);
    proof {
        if n < 10 {
            assert(n as int % 10 == n as int);
            assert(spec_dec(n as int) == seq![dec_digit(n as int)]);
        } else {
            assert(spec_dec(n as int) == spec_dec(n as int / 10).push(dec_digit(n as int % 10)));
            assert(spec_dec(n as int / 10).push(dec_digit(n as int % 10)) =~= spec_dec(
                n as int / 10,
            ) + seq![dec_digit(n as int % 10)]);
        }
    }
}

/// Render `n` in decimal.
pub fn u64_to_string(n: u64) -> (r: String)
    ensures
        r@ == spec_dec(n as int),
{
    let mut out = String::new();
    push_decimal(n, &mut out);
    proof {
        assert(Seq::<char>::empty() + spec_dec(n as int) =~= spec_dec(n as int));
    }
    out
}

} // verus!
