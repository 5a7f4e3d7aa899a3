//! Character-level building blocks shared by the parsers: Unicode
//! white space, trimming, splitting on separator characters and
//! ASCII case-insensitive comparison, each stated over `Seq<char>`.
use vstd::prelude::*;

verus! {

/// The Unicode `White_Space` property (what `char::is_whitespace`,
/// `str::trim` and the `\s` class of a pattern test).
pub open spec fn is_space(c: char) -> bool {
    ||| ('\t' <= c && c <= '\r')
    ||| c == ' '
    ||| c == '\u{85}'
    ||| c == '\u{a0}'
    ||| c == '\u{1680}'
    ||| ('\u{2000}' <= c && c <= '\u{200a}')
    ||| c == '\u{2028}'
    ||| c == '\u{2029}'
    ||| c == '\u{202f}'
    ||| c == '\u{205f}'
    ||| c == '\u{3000}'
}

/// Executable test for `is_space`.
pub fn is_space_char(c: char) -> (r: bool)
    ensures
        r == is_space(c),
{
    ('\t' <= c && c <= '\r') || c == ' ' || c == '\u{85}' || c == '\u{a0}' || c == '\u{1680}'
        || ('\u{2000}' <= c && c <= '\u{200a}') || c == '\u{2028}' || c == '\u{2029}' || c
        == '\u{202f}' || c == '\u{205f}' || c == '\u{3000}'
}

/// The characters of a string slice, in order.
pub fn chars_of(s: &str) -> (v: Vec<char>)
    ensures
        v@ == s@,
{
    let n = s.unicode_len();
    let mut v: Vec<char> = Vec::new();
    let mut i: usize = 0;
    while i < n
        invariant
            n == s@.len(),
            i <= n,
            v@ == s@.take(i as int),
        decreases n - i,
    {
        let c = s.get_char(i);
        v.push(c);
        i = i + 1;
        assert(v@ =~= s@.take(i as int));
    }
    assert(v@ =~= s@);
    v
}

/// Index of the first character at or after `i` that is not white space
/// (the length of `s` when there is none).
pub open spec fn trim_lo(s: Seq<char>, i: int) -> int
    decreases s.len() - i,
{
    if i >= s.len() || i < 0 {
        s.len() as int
    } else if is_space(s[i]) {
        trim_lo(s, i + 1)
    } else {
        i
    }
}

/// End of `s.subrange(lo, j)` once white space at its end is removed.
pub open spec fn trim_hi(s: Seq<char>, j: int, lo: int) -> int
    decreases j - lo,
{
    if j <= lo {
        lo
    } else if is_space(s[j - 1]) {
        trim_hi(s, j - 1, lo)
    } else {
        j
    }
}

/// `s` without its leading and trailing white space (`str::trim`).
pub open spec fn trim(s: Seq<char>) -> Seq<char> {
    let lo = trim_lo(s, 0);
    s.subrange(lo, trim_hi(s, s.len() as int, lo))
}

proof fn lemma_trim_lo_bounds(s: Seq<char>, i: int)
    requires
        0 <= i <= s.len(),
    ensures
        i <= trim_lo(s, i) <= s.len(),
    decreases s.len() - i,
{
    if i < s.len() && is_space(s[i]) {
        lemma_trim_lo_bounds(s, i + 1);
    }
}

proof fn lemma_trim_hi_bounds(s: Seq<char>, j: int, lo: int)
    requires
        lo <= j,
    ensures
        lo <= trim_hi(s, j, lo) <= j,
    decreases j - lo,
{
    if j > lo && is_space(s[j - 1]) {
        lemma_trim_hi_bounds(s, j - 1, lo);
    }
}

/// Bounds of the trimmed part of `v[lo..hi]`.
pub fn trim_range(v: &Vec<char>, lo: usize, hi: usize) -> (r: (usize, usize))
    requires
        lo <= hi <= v@.len(),
    ensures
        lo <= r.0 <= r.1 <= hi,
        v@.subrange(r.0 as int, r.1 as int) == trim(v@.subrange(lo as int, hi as int)),
{
    let ghost w = v@.subrange(lo as int, hi as int);
    let mut a: usize = lo;
    while a < hi && is_space_char(v[a])
        invariant
            lo <= a <= hi,
            hi <= v@.len(),
            w == v@.subrange(lo as int, hi as int),
            trim_lo(w, (a - lo) as int) == trim_lo(w, 0),
        decreases hi - a,
    {
        a = a + 1;
    }
    assert(trim_lo(w, (a - lo) as int) == (a - lo));
    let mut b: usize = hi;
    while b > a && is_space_char(v[b - 1])
        invariant
            a <= b <= hi,
            lo <= a,
            hi <= v@.len(),
            w == v@.subrange(lo as int, hi as int),
            trim_lo(w, 0) == a - lo,
            trim_hi(w, (b - lo) as int, (a - lo) as int) == trim_hi(
                w,
                w.len() as int,
                (a - lo) as int,
            ),
        decreases b - a,
    {
        b = b - 1;
    }
    assert(trim_hi(w, (b - lo) as int, (a - lo) as int) == (b - lo));
    assert(v@.subrange(a as int, b as int) =~= w.subrange((a - lo) as int, (b - lo) as int));
    (a, b)
}

/// Whether `c` is one of the two separator characters `c1`, `c2`.
pub open spec fn is_sep(c: char, c1: char, c2: char) -> bool {
    c == c1 || c == c2
}

/// The pieces of `s` between separators (`str::split`): `n` separators
/// give `n + 1` pieces, empty ones included.
pub open spec fn split_seq(s: Seq<char>, c1: char, c2: char) -> Seq<Seq<char>>
    decreases s.len(),
{
    if s.len() == 0 {
        seq![Seq::empty()]
    } else {
        let r = split_seq(s.drop_last(), c1, c2);
        if is_sep(s.last(), c1, c2) {
            r.push(Seq::empty())
        } else {
            r.update(r.len() - 1, r.last().push(s.last()))
        }
    }
}

/// The pieces as ranges into the whole sequence.
pub open spec fn range_pieces(s: Seq<char>, ranges: Seq<(usize, usize)>) -> Seq<Seq<char>> {
    ranges.map_values(|r: (usize, usize)| s.subrange(r.0 as int, r.1 as int))
}

/// Splits `v[lo..hi]` at every `c1` or `c2`, giving the ranges of the pieces.
pub fn split_range(v: &Vec<char>, lo: usize, hi: usize, c1: char, c2: char) -> (r: Vec<
    (usize, usize),
>)
    requires
        lo <= hi <= v@.len(),
    ensures
        range_pieces(v@, r@) == split_seq(v@.subrange(lo as int, hi as int), c1, c2),
        forall|k: int| 0 <= k < r@.len() ==> lo <= #[trigger] r@[k].0 <= r@[k].1 <= hi,
{
    let mut done: Vec<(usize, usize)> = Vec::new();
    let mut start: usize = lo;
    let mut i: usize = lo;
    assert(v@.subrange(lo as int, lo as int) =~= Seq::<char>::empty());
    assert(range_pieces(v@, done@) + seq![v@.subrange(start as int, i as int)] =~= split_seq(
        v@.subrange(lo as int, i as int),
        c1,
        c2,
    ));
    while i < hi
        invariant
            lo <= start <= i <= hi,
            hi <= v@.len(),
            forall|k: int| 0 <= k < done@.len() ==> lo <= #[trigger] done@[k].0 <= done@[k].1 <= i,
            range_pieces(v@, done@) + seq![v@.subrange(start as int, i as int)] == split_seq(
                v@.subrange(lo as int, i as int),
                c1,
                c2,
            ),
        decreases hi - i,
    {
        let c = v[i];
        let ghost prev = split_seq(v@.subrange(lo as int, i as int), c1, c2);
        assert(v@.subrange(lo as int, i + 1).drop_last() =~= v@.subrange(lo as int, i as int));
        assert(v@.subrange(lo as int, i + 1).last() == c);
        if c == c1 || c == c2 {
            let ghost old_done = done@;
            let ghost old_piece = v@.subrange(start as int, i as int);
            assert(range_pieces(v@, old_done) + seq![old_piece] == prev);
            done.push((start, i));
            start = i + 1;
            i = i + 1;
            assert(range_pieces(v@, done@) =~= range_pieces(v@, old_done) + seq![old_piece]);
            assert(v@.subrange(start as int, i as int) =~= Seq::<char>::empty());
            assert(range_pieces(v@, done@) + seq![v@.subrange(start as int, i as int)] =~= prev.push(
                Seq::empty(),
            ));
        } else {
            i = i + 1;
            assert(prev.last() == v@.subrange(start as int, i - 1));
            assert(v@.subrange(start as int, i as int) =~= v@.subrange(start as int, i - 1).push(c));
            assert(range_pieces(v@, done@) + seq![v@.subrange(start as int, i as int)] =~= prev.update(
                prev.len() - 1,
                prev.last().push(c),
            ));
        }
    }
    let ghost old_done = done@;
    done.push((start, i));
    assert(range_pieces(v@, done@) =~= range_pieces(v@, old_done) + seq![
        v@.subrange(start as int, i as int),
    ]);
    done
}

/// `c` equals the ASCII lower-case letter or character `k` up to ASCII case.
pub open spec fn lower_eq(c: char, k: char) -> bool {
    c == k || ('a' <= k && k <= 'z' && (c as u32) as int + 32 == (k as u32) as int)
}

/// `name` equals `key` (written in lower case) up to ASCII case.
pub open spec fn name_is(name: Seq<char>, key: Seq<char>) -> bool {
    name.len() == key.len() && forall|i: int| 0 <= i < name.len() ==> lower_eq(name[i], key[i])
}

/// Executable `name_is` on `v[lo..hi]`.
pub fn range_name_is(v: &Vec<char>, lo: usize, hi: usize, key: &Vec<char>) -> (r: bool)
    requires
        lo <= hi <= v@.len(),
    ensures
        r == name_is(v@.subrange(lo as int, hi as int), key@),
{
    if hi - lo != key.len() {
        return false;
    }
    let mut i: usize = 0;
    while i < key.len()
        invariant
            hi - lo == key@.len(),
            lo <= hi <= v@.len(),
            i <= key@.len(),
            forall|k: int| 0 <= k < i ==> lower_eq(v@[lo + k], key@[k]),
        decreases key@.len() - i,
    {
        let c = v[lo + i];
        let k = key[i];
        let ok = c == k || ('a' <= k && k <= 'z' && (c as u32) < 0x10_0000 && (c as u32) + 32 == (k as u32));
        assert(ok == lower_eq(v@[lo + i], key@[i as int]));
        if !ok {
            assert(!lower_eq(v@.subrange(lo as int, hi as int)[i as int], key@[i as int]));
            return false;
        }
        i = i + 1;
    }
    true
}

/// Index of the first `c` in `s` at or after `start` (the length of `s`
/// when there is none).
pub open spec fn first_from(s: Seq<char>, start: int, c: char) -> int
    decreases s.len() - start,
{
    if start >= s.len() || start < 0 {
        s.len() as int
    } else if s[start] == c {
        start
    } else {
        first_from(s, start + 1, c)
    }
}

pub proof fn lemma_first_from(s: Seq<char>, start: int, c: char)
    requires
        0 <= start <= s.len(),
    ensures
        start <= first_from(s, start, c) <= s.len(),
        first_from(s, start, c) < s.len() ==> s[first_from(s, start, c)] == c,
        forall|i: int| start <= i < first_from(s, start, c) ==> s[i] != c,
    decreases s.len() - start,
{
    if start < s.len() && s[start] != c {
        lemma_first_from(s, start + 1, c);
    }
}

/// Executable `first_from`.
pub fn find_from(v: &Vec<char>, start: usize, c: char) -> (r: usize)
    requires
        start <= v@.len(),
    ensures
        r == first_from(v@, start as int, c),
{
    let mut i = start;
    while i < v.len() && v[i] != c
        invariant
            start <= i <= v@.len(),
            first_from(v@, i as int, c) == first_from(v@, start as int, c),
        decreases v@.len() - i,
    {
        i = i + 1;
    }
    i
}

/// No piece of a split holds a separator.
pub proof fn lemma_split_pieces_have_no_separator(s: Seq<char>, c1: char, c2: char)
    ensures
        split_seq(s, c1, c2).len() >= 1,
        forall|k: int, i: int|
            0 <= k < split_seq(s, c1, c2).len() && 0 <= i < split_seq(s, c1, c2)[k].len()
                ==> !is_sep(#[trigger] split_seq(s, c1, c2)[k][i], c1, c2),
    decreases s.len(),
{
    if s.len() > 0 {
        lemma_split_pieces_have_no_separator(s.drop_last(), c1, c2);
    }
}

proof fn lemma_trim_lo_stops(s: Seq<char>, i: int)
    requires
        0 <= i <= s.len(),
    ensures
        trim_lo(s, i) == s.len() || !is_space(s[trim_lo(s, i)]),
    decreases s.len() - i,
{
    if i < s.len() && is_space(s[i]) {
        lemma_trim_lo_stops(s, i + 1);
    }
}

proof fn lemma_trim_hi_stops(s: Seq<char>, j: int, lo: int)
    requires
        lo <= j,
    ensures
        trim_hi(s, j, lo) == lo || !is_space(s[trim_hi(s, j, lo) - 1]),
    decreases j - lo,
{
    if j > lo && is_space(s[j - 1]) {
        lemma_trim_hi_stops(s, j - 1, lo);
    }
}

/// Law: trimming twice is trimming once.
pub proof fn lemma_trim_idempotent(s: Seq<char>)
    ensures
        trim(trim(s)) == trim(s),
{
    let lo = trim_lo(s, 0);
    lemma_trim_lo_bounds(s, 0);
    lemma_trim_lo_stops(s, 0);
    let hi = trim_hi(s, s.len() as int, lo);
    lemma_trim_hi_bounds(s, s.len() as int, lo);
    lemma_trim_hi_stops(s, s.len() as int, lo);
    let t = trim(s);
    if t.len() == 0 {
        assert(trim(t) =~= t);
    } else {
        assert(t[0] == s[lo]);
        assert(t[t.len() - 1] == s[hi - 1]);
        assert(trim_lo(t, 0) == 0);
        assert(trim_hi(t, t.len() as int, 0) == t.len());
        assert(trim(t) =~= t);
    }
}

/// `first_from` is the position of the first `c` at or after `start`.
pub proof fn lemma_first_from_is(t: Seq<char>, start: int, c: char, k: int)
    requires
        0 <= start <= k <= t.len(),
        forall|i: int| start <= i < k ==> t[i] != c,
        k == t.len() || t[k] == c,
    ensures
        first_from(t, start, c) == k,
    decreases k - start,
{
    if start < k {
        lemma_first_from_is(t, start + 1, c, k);
    }
}

/// A text without white space is its own trimmed text.
pub proof fn lemma_trim_no_space(s: Seq<char>)
    requires
        forall|i: int| 0 <= i < s.len() ==> !is_space(#[trigger] s[i]),
    ensures
        trim(s) == s,
{
    if s.len() > 0 {
        assert(trim_lo(s, 0) == 0);
        assert(trim_hi(s, s.len() as int, 0) == s.len());
    }
    assert(s.subrange(0, s.len() as int) =~= s);
}

} // verus!
