//! Character-level text helpers used throughout the library: whitespace,
//! trimming, prefix tests, substring search, line splitting and decimal digits.

use vstd::prelude::*;

verus! {

/// The Unicode `White_Space` property, the set that `char::is_whitespace` tests.
pub open spec fn is_ws(c: char) -> bool {
    ||| ('\u{9}' <= c && c <= '\u{d}')
    ||| c == ' '
    ||| c == '\u{85}'
    ||| c == '\u{a0}'
    ||| c == '\u{1680}'
    ||| ('\u{2000}' <= c && c <= '\u{200a}')
    ||| c == '\u{2028}'
    ||| c == '\u{2029}'
    ||| c == '\u{202f}'
    ||| c == '\u{205f}'
    ||| c == '\u{3000}'
}

pub fn is_whitespace(c: char) -> (r: bool)
    ensures
        r == is_ws(c),
{
    ('\u{9}' <= c && c <= '\u{d}') || c == ' ' || c == '\u{85}' || c == '\u{a0}' || c == '\u{1680}'
        || ('\u{2000}' <= c && c <= '\u{200a}') || c == '\u{2028}' || c == '\u{2029}' || c
        == '\u{202f}' || c == '\u{205f}' || c == '\u{3000}'
}

/// Number of whitespace characters at the start of `s`.
pub open spec fn lead_ws(s: Seq<char>) -> nat
    decreases s.len(),
{
    if s.len() > 0 && is_ws(s[0]) {
        1 + lead_ws(s.drop_first())
    } else {
        0
    }
}

/// Number of whitespace characters at the end of `s`.
pub open spec fn trail_ws(s: Seq<char>) -> nat
    decreases s.len(),
{
    if s.len() > 0 && is_ws(s.last()) {
        1 + trail_ws(s.drop_last())
    } else {
        0
    }
}

/// `s` without its leading and trailing whitespace (what `str::trim` gives).
pub open spec fn trimmed(s: Seq<char>) -> Seq<char> {
    let a = s.skip(lead_ws(s) as int);
    a.take(a.len() - trail_ws(a))
}

pub open spec fn has_prefix(s: Seq<char>, p: Seq<char>) -> bool {
    p.len() <= s.len() && s.take(p.len() as int) == p
}

pub open spec fn occurs_at(hay: Seq<char>, needle: Seq<char>, i: int) -> bool {
    0 <= i && i + needle.len() <= hay.len() && hay.subrange(i, i + needle.len()) == needle
}

/// `needle` occurs somewhere in `hay` (what `str::contains` with a string pattern tests).
pub open spec fn contains_seq(hay: Seq<char>, needle: Seq<char>) -> bool {
    exists|i: int| occurs_at(hay, needle, i)
}

/// The pieces of `s` between `'\n'` characters (what `str::split('\n')` yields).
pub open spec fn split_lines(s: Seq<char>) -> Seq<Seq<char>>
    decreases s.len(),
{
    if s.len() == 0 {
        seq![Seq::<char>::empty()]
    } else {
        let p = split_lines(s.drop_last());
        if s.last() == '\n' {
            p.push(Seq::<char>::empty())
        } else {
            p.update(p.len() - 1, p.last().push(s.last()))
        }
    }
}

pub open spec fn digit_char(d: nat) -> char {
    if d == 0 { '0' }
    else if d == 1 { '1' }
    else if d == 2 { '2' }
    else if d == 3 { '3' }
    else if d == 4 { '4' }
    else if d == 5 { '5' }
    else if d == 6 { '6' }
    else if d == 7 { '7' }
    else if d == 8 { '8' }
    else { '9' }
}

/// Decimal digits of `n`, without leading zeros (what `{}` prints for an unsigned integer).
pub open spec fn decimal(n: nat) -> Seq<char>
    decreases n,
{
    if n < 10 {
        seq![digit_char(n)]
    } else {
        decimal(n / 10).push(digit_char(n % 10))
    }
}

/// `String::push`.
#[verifier::external_body]
pub(crate) fn push_char(s: &mut String, c: char)
    ensures
        final(s)@ == old(s)@.push(c),
{
    s.push(c);
}

/// The characters of a string, in order.
pub fn chars_of(s: &str) -> (v: Vec<char>)
    ensures
        v@ == s@,
{
    let mut v: Vec<char> = Vec::new();
    for c in it: s.chars()
        invariant
            v@ == it.seq().take(it.index()),
    {
        v.push(c);
    }
    v
}

/// The string made of `v[lo..hi]`.
pub fn string_of(v: &Vec<char>, lo: usize, hi: usize) -> (s: String)
    requires
        lo <= hi <= v.len(),
    ensures
        s@ == v@.subrange(lo as int, hi as int),
{
    let mut s = String::new();
    let mut i = lo;
    while i < hi
        invariant
            lo <= i <= hi <= v.len(),
            s@ == v@.subrange(lo as int, i as int),
        decreases hi - i,
    {
        push_char(&mut s, v[i]);
        assert(v@.subrange(lo as int, i + 1) == v@.subrange(lo as int, i as int).push(v@[i as int]));
        i = i + 1;
    }
    s
}

proof fn lemma_lead_step(s: Seq<char>, k: int)
    requires
        0 <= k < s.len(),
        is_ws(s[k]),
    ensures
        lead_ws(s.skip(k)) == 1 + lead_ws(s.skip(k + 1)),
{
    assert(s.skip(k).drop_first() == s.skip(k + 1));
}

proof fn lemma_trail_step(s: Seq<char>, k: int)
    requires
        0 < k <= s.len(),
        is_ws(s[k - 1]),
    ensures
        trail_ws(s.take(k)) == 1 + trail_ws(s.take(k - 1)),
{
    assert(s.take(k).drop_last() == s.take(k - 1));
}

/// Bounds `lo..hi` of the trimmed part of `v`.
pub fn trim_bounds(v: &Vec<char>) -> (r: (usize, usize))
    ensures
        r.0 <= r.1 <= v.len(),
        v@.subrange(r.0 as int, r.1 as int) == trimmed(v@),
{
    let n = v.len();
    let mut lo: usize = 0;
    assert(v@.skip(0) == v@);
    while lo < n && is_whitespace(v[lo])
        invariant
            lo <= n == v.len(),
            lead_ws(v@) == lo + lead_ws(v@.skip(lo as int)),
        decreases n - lo,
    {
        proof {
            lemma_lead_step(v@, lo as int);
        }
        lo = lo + 1;
    }
    assert(lead_ws(v@.skip(lo as int)) == 0);
    let ghost a = v@.skip(lo as int);
    assert(a.take(n - lo) == a);
    let mut hi: usize = n;
    while hi > lo && is_whitespace(v[hi - 1])
        invariant
            lo <= hi <= n == v.len(),
            a == v@.skip(lo as int),
            trail_ws(a) == (n - hi) + trail_ws(a.take(hi - lo)),
        decreases hi - lo,
    {
        proof {
            lemma_trail_step(a, (hi - lo) as int);
        }
        hi = hi - 1;
    }
    assert(a.take(a.len() as int) == a);
    assert(trail_ws(a.take(hi - lo)) == 0);
    assert(v@.subrange(lo as int, hi as int) == a.take(hi - lo));
    (lo, hi)
}

/// `str::trim`, over characters.
pub fn trim(s: &str) -> (r: String)
    ensures
        r@ == trimmed(s@),
{
    let v = chars_of(s);
    let (lo, hi) = trim_bounds(&v);
    string_of(&v, lo, hi)
}

/// Whether `s` starts with `p`.
pub fn starts_with(s: &Vec<char>, p: &Vec<char>) -> (r: bool)
    ensures
        r == has_prefix(s@, p@),
{
    if p.len() > s.len() {
        return false;
    }
    let mut i: usize = 0;
    while i < p.len()
        invariant
            p.len() <= s.len(),
            i <= p.len(),
            forall|k: int| 0 <= k < i ==> s@[k] == p@[k],
        decreases p.len() - i,
    {
        if s[i] != p[i] {
            assert(s@.take(p.len() as int)[i as int] != p@[i as int]);
            return false;
        }
        i = i + 1;
    }
    assert(s@.take(p.len() as int) == p@);
    true
}

/// Whether `needle` occurs at position `i` of `hay`.
fn matches_at(hay: &Vec<char>, needle: &Vec<char>, i: usize) -> (r: bool)
    requires
        i + needle.len() <= hay.len(),
    ensures
        r == occurs_at(hay@, needle@, i as int),
{
    let mut k: usize = 0;
    while k < needle.len()
        invariant
            i + needle.len() <= hay.len(),
            k <= needle.len(),
            forall|j: int| 0 <= j < k ==> hay@[i + j] == needle@[j],
        decreases needle.len() - k,
    {
        if hay[i + k] != needle[k] {
            assert(hay@.subrange(i as int, i + needle.len())[k as int] != needle@[k as int]);
            return false;
        }
        k = k + 1;
    }
    assert(hay@.subrange(i as int, i + needle.len()) == needle@);
    true
}

/// `str::contains` with a string pattern, over characters.
pub fn contains(hay: &Vec<char>, needle: &Vec<char>) -> (r: bool)
    ensures
        r == contains_seq(hay@, needle@),
{
    if needle.len() > hay.len() {
        return false;
    }
    if needle.len() == 0 {
        assert(hay@.subrange(0, 0) == needle@);
        assert(occurs_at(hay@, needle@, 0));
        return true;
    }
    let end = hay.len() - needle.len() + 1;
    let mut i: usize = 0;
    while i < end
        invariant
            end + needle.len() == hay.len() + 1,
            i <= end,
            forall|j: int| 0 <= j < i ==> !occurs_at(hay@, needle@, j),
        decreases end - i,
    {
        if matches_at(hay, needle, i) {
            return true;
        }
        i = i + 1;
    }
    false
}

/// Appends the decimal digits of `n` to `s`.
pub fn push_decimal(s: &mut String, n: u64)
    ensures
        final(s)@ == old(s)@ + decimal(n as nat),
    decreases n,
{
    if n >= 10 {
        push_decimal(s, n / 10);
    }
    let d = n % 10;
    let c = if d == 0 { '0' } else if d == 1 { '1' } else if d == 2 { '2' } else if d == 3 {
        '3'
    } else if d == 4 { '4' } else if d == 5 { '5' } else if d == 6 { '6' } else if d == 7 {
        '7'
    } else if d == 8 { '8' } else { '9' };
    push_char(s, c);
}

pub open spec fn no_newline(s: Seq<char>) -> bool {
    forall|i: int| 0 <= i < s.len() ==> s[i] != '\n'
}

/// A piece without newlines is a single line.
pub proof fn lemma_split_single(s: Seq<char>)
    requires
        no_newline(s),
    ensures
        split_lines(s) == seq![s],
    decreases s.len(),
{
    if s.len() > 0 {
        lemma_split_single(s.drop_last());
        assert(s.last() != '\n');
        assert(s.drop_last().push(s.last()) == s);
        assert(seq![s.drop_last()].update(0, s) == seq![s]);
    } else {
        assert(s == Seq::<char>::empty());
    }
}

/// Text without newlines extends the last line.
pub proof fn lemma_split_extend(x: Seq<char>, t: Seq<char>)
    requires
        no_newline(t),
    ensures
        split_lines(x + t) == split_lines(x).update(
            split_lines(x).len() - 1,
            split_lines(x).last() + t,
        ),
    decreases t.len(),
{
    lemma_split_lines_nonempty(x);
    if t.len() == 0 {
        assert(x + t == x);
        assert(split_lines(x).last() + t == split_lines(x).last());
        assert(split_lines(x).update(split_lines(x).len() - 1, split_lines(x).last()) == split_lines(
            x,
        ));
    } else {
        let t1 = t.drop_last();
        lemma_split_extend(x, t1);
        assert((x + t).drop_last() == x + t1);
        assert((x + t).last() == t.last());
        let q = split_lines(x);
        let p = split_lines(x + t1);
        assert(p == q.update(q.len() - 1, q.last() + t1));
        assert(p.last() == q.last() + t1);
        assert((q.last() + t1).push(t.last()) == q.last() + t);
        assert(p.update(p.len() - 1, p.last().push(t.last())) == q.update(
            q.len() - 1,
            q.last() + t,
        ));
    }
}

/// A newline starts a new, empty line.
pub proof fn lemma_split_newline(x: Seq<char>)
    ensures
        split_lines(x.push('\n')) == split_lines(x).push(Seq::<char>::empty()),
{
    assert(x.push('\n').drop_last() == x);
}

/// Text without whitespace at either end is its own trimming.
pub proof fn lemma_trimmed_self(s: Seq<char>)
    requires
        s.len() > 0,
        !is_ws(s[0]),
        !is_ws(s.last()),
    ensures
        trimmed(s) == s,
{
    assert(lead_ws(s) == 0);
    assert(s.skip(0) == s);
    assert(trail_ws(s) == 0);
    assert(s.take(s.len() as int) == s);
}

/// The whitespace counted at the two ends fits in the text.
pub proof fn lemma_ws_counts(s: Seq<char>)
    ensures
        lead_ws(s) <= s.len(),
        trail_ws(s) <= s.len(),
    decreases s.len(),
{
    if s.len() > 0 {
        lemma_ws_counts(s.drop_first());
        lemma_ws_counts(s.drop_last());
    }
}

/// Its own trimming has no whitespace at either end.
pub proof fn lemma_trimmed_ends(s: Seq<char>)
    requires
        trimmed(s) == s,
        s.len() > 0,
    ensures
        !is_ws(s[0]),
        !is_ws(s.last()),
{
    lemma_ws_counts(s);
    let a = s.skip(lead_ws(s) as int);
    lemma_ws_counts(a);
    if is_ws(s[0]) {
        assert(lead_ws(s) >= 1);
        assert(trimmed(s).len() < s.len());
    }
    if is_ws(s.last()) {
        if lead_ws(s) == 0 {
            assert(a == s);
            assert(trail_ws(a) >= 1);
        }
        assert(trimmed(s).len() < s.len());
    }
}

/// A comma in a prefix stays the first comma.
pub proof fn lemma_first_comma_append(p: Seq<char>, s: Seq<char>)
    requires
        first_comma(p) >= 0,
    ensures
        first_comma(p + s) == first_comma(p),
    decreases s.len(),
{
    if s.len() == 0 {
        assert(p + s == p);
    } else {
        lemma_first_comma_append(p, s.drop_last());
        assert((p + s).drop_last() == p + s.drop_last());
    }
}

/// There is always at least one piece.
pub proof fn lemma_split_lines_nonempty(s: Seq<char>)
    ensures
        split_lines(s).len() >= 1,
    decreases s.len(),
{
    if s.len() > 0 {
        lemma_split_lines_nonempty(s.drop_last());
    }
}

/// Index of the first `','` in `s`, or -1.
pub open spec fn first_comma(s: Seq<char>) -> int
    decreases s.len(),
{
    if s.len() == 0 {
        -1
    } else {
        let k = first_comma(s.drop_last());
        if k >= 0 {
            k
        } else if s.last() == ',' {
            s.len() - 1
        } else {
            -1
        }
    }
}

/// Position of the first `','` in `v`, or `v.len()` where there is none.
pub fn find_comma(v: &Vec<char>) -> (r: usize)
    ensures
        r <= v.len(),
        r == v.len() <==> first_comma(v@) < 0,
        r < v.len() ==> r == first_comma(v@),
{
    let mut i: usize = 0;
    while i < v.len() && v[i] != ','
        invariant
            i <= v.len(),
            first_comma(v@.take(i as int)) < 0,
        decreases v.len() - i,
    {
        assert(v@.take(i + 1).drop_last() == v@.take(i as int));
        i = i + 1;
    }
    proof {
        if i < v.len() {
            assert(v@.take(i + 1).drop_last() == v@.take(i as int));
            lemma_first_comma_prefix(v@, (i + 1) as int);
        } else {
            assert(v@.take(i as int) == v@);
        }
    }
    i
}

/// A comma found in a prefix is the first comma of the whole.
pub proof fn lemma_first_comma_prefix(s: Seq<char>, k: int)
    requires
        0 <= k <= s.len(),
        first_comma(s.take(k)) >= 0,
    ensures
        first_comma(s) == first_comma(s.take(k)),
    decreases s.len() - k,
{
    if k < s.len() {
        assert(s.take(k + 1).drop_last() == s.take(k));
        lemma_first_comma_prefix(s, k + 1);
    } else {
        assert(s.take(k) == s);
    }
}

} // verus!
