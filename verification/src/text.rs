//! Character-level text processing used by the output parsers:
//! whitespace, line and word splitting, substring search, unsigned
//! integer parsing and decimal rendering.

use vstd::prelude::*;
use vstd::std_specs::iter::IteratorSpec;

use crate::foreign::string_push;

verus! {

/// Unicode `White_Space` characters, the set `char::is_whitespace` accepts.
pub open spec fn is_space(c: char) -> bool {
    ||| c == ' '
    ||| ('\t' <= c && c <= '\r')
    ||| c == '\u{85}'
    ||| c == '\u{a0}'
    ||| c == '\u{1680}'
    ||| ('\u{2000}' <= c && c <= '\u{200a}')
    ||| c == '\u{2028}'
    ||| c == '\u{2029}'
    ||| c == '\u{202f}'
    ||| c == '\u{205f}'
    ||| c == '\u{3000}'
}

/// Whether `c` is whitespace (what `char::is_whitespace` answers).
pub fn is_space_char(c: char) -> (r: bool)
    ensures
        r == is_space(c),
{
    c == ' ' || ('\t' <= c && c <= '\r') || c == '\u{85}' || c == '\u{a0}' || c == '\u{1680}'
        || ('\u{2000}' <= c && c <= '\u{200a}') || c == '\u{2028}' || c == '\u{2029}' || c
        == '\u{202f}' || c == '\u{205f}' || c == '\u{3000}'
}

/// The characters of a string slice, in order.
pub fn chars_of(s: &str) -> (v: Vec<char>)
    ensures
        v@ == s@,
{
    broadcast use vstd::string::group_string_axioms;

    let mut v: Vec<char> = Vec::new();
    for c in it: s.chars()
        invariant
            v@ == it.seq().take(it.index()),
    {
        v.push(c);
        assert(v@ =~= it.seq().take(it.index() + 1));
    }
    assert(v@ =~= s@);
    v
}

/// The words of `s`: its maximal runs of non-whitespace characters, in
/// order (what `str::split_whitespace` yields).
pub open spec fn words(s: Seq<char>) -> Seq<Seq<char>>
    decreases s.len(),
{
    if s.len() == 0 {
        seq![]
    } else {
        let prev = words(s.drop_last());
        let c = s.last();
        if is_space(c) {
            prev
        } else if s.len() >= 2 && !is_space(s[s.len() - 2]) {
            prev.update(prev.len() - 1, prev.last().push(c))
        } else {
            prev.push(seq![c])
        }
    }
}

pub proof fn lemma_words_nonempty(s: Seq<char>)
    requires
        s.len() > 0,
        !is_space(s.last()),
    ensures
        words(s).len() > 0,
    decreases s.len(),
{
    if s.len() >= 2 && !is_space(s[s.len() - 2]) {
        lemma_words_nonempty(s.drop_last());
    }
}

/// Each word of `s` occurs in `s`; the last one, when `s` ends in a
/// non-space, occurs at its end.
pub proof fn lemma_words_occur(s: Seq<char>)
    ensures
        forall|i: int| 0 <= i < words(s).len() ==> contains(s, #[trigger] words(s)[i]),
        s.len() > 0 && !is_space(s.last()) ==> words(s).len() > 0 && occurs_at(
            s,
            words(s).last(),
            s.len() - words(s).last().len(),
        ),
    decreases s.len(),
{
    if s.len() > 0 {
        let p = s.drop_last();
        let c = s.last();
        let prev = words(p);
        let cur = words(s);
        lemma_words_occur(p);
        assert forall|w: Seq<char>| contains(p, w) implies contains(s, w) by {
            let i = choose|i: int| occurs_at(p, w, i);
            assert(s.subrange(i, i + w.len()) =~= p.subrange(i, i + w.len()));
            assert(occurs_at(s, w, i));
        }
        if is_space(c) {
            assert forall|i: int| 0 <= i < cur.len() implies contains(s, #[trigger] cur[i]) by {
                assert(contains(p, prev[i]));
            }
        } else if s.len() >= 2 && !is_space(s[s.len() - 2]) {
            assert(p.last() == s[s.len() - 2]);
            let n = prev.len() - 1;
            let w = prev.last().push(c);
            assert(occurs_at(p, prev.last(), p.len() - prev.last().len()));
            assert(s.subrange(s.len() - w.len(), s.len() as int) =~= w);
            assert(occurs_at(s, w, s.len() - w.len()));
            assert forall|i: int| 0 <= i < cur.len() implies contains(s, #[trigger] cur[i]) by {
                if i < n {
                    assert(cur[i] == prev[i]);
                    assert(contains(p, prev[i]));
                } else {
                    assert(cur[i] == w);
                }
            }
        } else {
            let w = seq![c];
            assert(s.subrange(s.len() - 1, s.len() as int) =~= w);
            assert(occurs_at(s, w, s.len() - 1));
            assert forall|i: int| 0 <= i < cur.len() implies contains(s, #[trigger] cur[i]) by {
                if i < prev.len() {
                    assert(cur[i] == prev[i]);
                    assert(contains(p, prev[i]));
                } else {
                    assert(cur[i] == w);
                }
            }
        }
    }
}

/// `w` is the word of `s` that starts at `m`: only whitespace comes
/// before it, it is a non-empty run of non-whitespace, and whitespace or
/// the end of `s` follows it.
pub open spec fn word_starts_at(s: Seq<char>, w: Seq<char>, m: int) -> bool {
    &&& 0 <= m
    &&& w.len() > 0
    &&& m + w.len() <= s.len()
    &&& forall|t: int| 0 <= t < m ==> is_space(#[trigger] s[t])
    &&& s.subrange(m, m + w.len()) == w
    &&& forall|t: int| 0 <= t < w.len() ==> !is_space(#[trigger] w[t])
    &&& (m + w.len() == s.len() || is_space(s[m + w.len()]))
}

/// `w` is the first word of `s` (see `word_starts_at`).
pub open spec fn is_first_word(s: Seq<char>, w: Seq<char>) -> bool {
    exists|m: int| word_starts_at(s, w, m)
}

/// A text has at most one first word.
pub proof fn lemma_first_word_unique(s: Seq<char>, w1: Seq<char>, w2: Seq<char>)
    requires
        is_first_word(s, w1),
        is_first_word(s, w2),
    ensures
        w1 == w2,
{
    let m1 = choose|m: int| word_starts_at(s, w1, m);
    let m2 = choose|m: int| word_starts_at(s, w2, m);
    assert(s[m1] == s.subrange(m1, m1 + w1.len())[0]);
    assert(s[m2] == s.subrange(m2, m2 + w2.len())[0]);
    assert(!is_space(w1[0]));
    assert(!is_space(w2[0]));
    if m1 < m2 {
        assert(is_space(s[m1]));
    }
    if m2 < m1 {
        assert(is_space(s[m2]));
    }
    assert(m1 == m2);
    if w1.len() < w2.len() {
        assert(s[m1 + w1.len()] == s.subrange(m2, m2 + w2.len())[w1.len() as int]);
        assert(!is_space(w2[w1.len() as int]));
    }
    if w2.len() < w1.len() {
        assert(s[m2 + w2.len()] == s.subrange(m1, m1 + w1.len())[w2.len() as int]);
        assert(!is_space(w1[w2.len() as int]));
    }
    assert(w1 =~= s.subrange(m1, m1 + w1.len()));
    assert(w2 =~= s.subrange(m2, m2 + w2.len()));
}

proof fn lemma_first_of_words(s: Seq<char>)
    ensures
        words(s).len() == 0 ==> forall|t: int| 0 <= t < s.len() ==> is_space(#[trigger] s[t]),
        words(s).len() > 0 ==> exists|m: int|
            #[trigger] word_starts_at(s, words(s)[0], m) && (words(s).len() > 1 ==> m
                + words(s)[0].len() < s.len()) && (words(s).len() == 1 && !is_space(s.last())
                ==> m + words(s)[0].len() == s.len()),
    decreases s.len(),
{
    if s.len() > 0 {
        let p = s.drop_last();
        let c = s.last();
        let prev = words(p);
        let cur = words(s);
        let n = s.len() - 1;
        lemma_first_of_words(p);
        assert(s[n] == c);
        assert forall|t: int| 0 <= t < n implies s[t] == p[t] by {}
        if is_space(c) {
            if prev.len() > 0 {
                let m = choose|m: int|
                    #[trigger] word_starts_at(p, prev[0], m) && (prev.len() > 1 ==> m + prev[0].len()
                        < p.len()) && (prev.len() == 1 && !is_space(p.last()) ==> m + prev[0].len()
                        == p.len());
                let w = prev[0];
                assert(s.subrange(m, m + w.len()) =~= p.subrange(m, m + w.len()));
                assert(word_starts_at(s, cur[0], m));
            }
        } else if s.len() >= 2 && !is_space(s[s.len() - 2]) {
            lemma_words_nonempty(p);
            assert(p.last() == s[s.len() - 2]);
            let m = choose|m: int|
                #[trigger] word_starts_at(p, prev[0], m) && (prev.len() > 1 ==> m + prev[0].len()
                    < p.len()) && (prev.len() == 1 && !is_space(p.last()) ==> m + prev[0].len()
                    == p.len());
            let w = prev[0];
            if prev.len() == 1 {
                let w2 = w.push(c);
                assert(cur[0] == w2);
                assert(s.subrange(m, m + w2.len()) =~= p.subrange(m, m + w.len()).push(c));
                assert forall|t: int| 0 <= t < w2.len() implies !is_space(#[trigger] w2[t]) by {
                    if t < w.len() {
                        assert(w2[t] == w[t]);
                    }
                }
                assert(word_starts_at(s, cur[0], m));
            } else {
                assert(cur[0] == w);
                assert(s.subrange(m, m + w.len()) =~= p.subrange(m, m + w.len()));
                assert(word_starts_at(s, cur[0], m));
            }
        } else {
            if prev.len() == 0 {
                let w = seq![c];
                assert(cur[0] == w);
                assert(s.subrange(n, n + 1) =~= w);
                assert(word_starts_at(s, cur[0], n));
            } else {
                let m = choose|m: int|
                    #[trigger] word_starts_at(p, prev[0], m) && (prev.len() > 1 ==> m + prev[0].len()
                        < p.len()) && (prev.len() == 1 && !is_space(p.last()) ==> m + prev[0].len()
                        == p.len());
                let w = prev[0];
                assert(cur[0] == w);
                if m + w.len() == p.len() {
                    assert(p.subrange(m, m + w.len())[w.len() - 1] == p[p.len() - 1]);
                    assert(p[p.len() - 1] == s[s.len() - 2]);
                    assert(!is_space(w[w.len() - 1]));
                }
                assert(s.subrange(m, m + w.len()) =~= p.subrange(m, m + w.len()));
                assert(word_starts_at(s, cur[0], m));
            }
        }
    }
}

/// The first of the words of `s` is its first word (see `is_first_word`);
/// `s` has none only when it is all whitespace.
pub proof fn lemma_first_word(s: Seq<char>)
    ensures
        words(s).len() > 0 ==> is_first_word(s, words(s)[0]),
        words(s).len() == 0 ==> forall|t: int| 0 <= t < s.len() ==> is_space(#[trigger] s[t]),
{
    lemma_first_of_words(s);
}

/// The character sequences held by a vector of character vectors.
pub open spec fn rows_view(v: Seq<Vec<char>>) -> Seq<Seq<char>> {
    v.map_values(|w: Vec<char>| w@)
}

/// Splits `s` into its words.
pub fn split_words(s: &[char]) -> (out: Vec<Vec<char>>)
    ensures
        rows_view(out@) == words(s@),
{
    let mut out: Vec<Vec<char>> = Vec::new();
    let mut i: usize = 0;
    while i < s.len()
        invariant
            0 <= i <= s.len(),
            rows_view(out@) == words(s@.take(i as int)),
        decreases s.len() - i,
    {
        let c = s[i];
        let ghost pre = s@.take(i as int);
        let ghost cur = s@.take(i + 1);
        assert(cur.drop_last() =~= pre);
        assert(cur.last() == c);
        if is_space_char(c) {
        } else if i > 0 && !is_space_char(s[i - 1]) {
            assert(cur[cur.len() - 2] == s@[i - 1]);
            proof {
                lemma_words_nonempty(pre);
            }
            let mut w = out.pop().unwrap();
            w.push(c);
            out.push(w);
            assert(rows_view(out@) =~= words(pre).update(
                words(pre).len() - 1,
                words(pre).last().push(c),
            ));
        } else {
            let mut w: Vec<char> = Vec::new();
            w.push(c);
            assert(w@ =~= seq![c]);
            out.push(w);
            assert(rows_view(out@) =~= words(pre).push(seq![c]));
        }
        i = i + 1;
    }
    assert(s@.take(s.len() as int) =~= s@);
    out
}

/// `p` occurs in `s` starting at index `i`.
pub open spec fn occurs_at(s: Seq<char>, p: Seq<char>, i: int) -> bool {
    0 <= i && i + p.len() <= s.len() && s.subrange(i, i + p.len()) == p
}

/// `p` occurs somewhere in `s` (what `str::contains` answers).
pub open spec fn contains(s: Seq<char>, p: Seq<char>) -> bool {
    exists|i: int| #[trigger] occurs_at(s, p, i)
}

/// `i` is the first index at which `p` occurs in `s`.
pub open spec fn first_occurrence(s: Seq<char>, p: Seq<char>, i: int) -> bool {
    occurs_at(s, p, i) && forall|j: int| 0 <= j < i ==> !#[trigger] occurs_at(s, p, j)
}

/// The first index at which `p` occurs in `s` (what `str::find` answers,
/// counted in characters).
pub open spec fn find(s: Seq<char>, p: Seq<char>) -> Option<int> {
    if contains(s, p) {
        Some(choose|i: int| first_occurrence(s, p, i))
    } else {
        None
    }
}

/// Where `p` occurs in `s`, it occurs first somewhere.
pub proof fn lemma_first_occurrence_exists(s: Seq<char>, p: Seq<char>, k: int)
    requires
        occurs_at(s, p, k),
    ensures
        exists|i: int| first_occurrence(s, p, i),
    decreases k,
{
    if exists|j: int| 0 <= j < k && #[trigger] occurs_at(s, p, j) {
        let j = choose|j: int| 0 <= j < k && #[trigger] occurs_at(s, p, j);
        lemma_first_occurrence_exists(s, p, j);
    } else {
        assert(first_occurrence(s, p, k));
    }
}

/// `s` begins with `p`.
pub open spec fn starts_with(s: Seq<char>, p: Seq<char>) -> bool {
    p.len() <= s.len() && s.take(p.len() as int) == p
}

/// Whether `p` occurs in `s` at index `i`.
pub fn occurs_at_exec(s: &[char], p: &[char], i: usize) -> (r: bool)
    requires
        i + p.len() <= s.len(),
    ensures
        r == occurs_at(s@, p@, i as int),
{
    let mut k: usize = 0;
    while k < p.len()
        invariant
            0 <= k <= p.len(),
            i + p.len() <= s.len(),
            forall|t: int| 0 <= t < k ==> s@[i + t] == p@[t],
        decreases p.len() - k,
    {
        if s[i + k] != p[k] {
            assert(s@.subrange(i as int, i + p.len())[k as int] != p@[k as int]);
            return false;
        }
        k = k + 1;
    }
    assert(s@.subrange(i as int, i + p.len()) =~= p@);
    true
}

/// Index of the first occurrence of `p` in `s`.
pub fn find_exec(s: &[char], p: &[char]) -> (r: Option<usize>)
    ensures
        match r {
            Some(i) => find(s@, p@) == Some(i as int) && first_occurrence(s@, p@, i as int),
            None => find(s@, p@) is None && !contains(s@, p@),
        },
{
    if p.len() > s.len() {
        assert forall|j: int| !#[trigger] occurs_at(s@, p@, j) by {}
        return None;
    }
    let last = s.len() - p.len();
    let mut i: usize = 0;
    loop
        invariant
            0 <= i <= last,
            last + p.len() == s.len(),
            forall|j: int| 0 <= j < i ==> !#[trigger] occurs_at(s@, p@, j),
        ensures
            forall|j: int| 0 <= j <= last ==> !#[trigger] occurs_at(s@, p@, j),
        decreases last - i,
    {
        if occurs_at_exec(s, p, i) {
            assert(first_occurrence(s@, p@, i as int));
            proof {
                let k = choose|k: int| first_occurrence(s@, p@, k);
                assert(first_occurrence(s@, p@, k));
                if k < i {
                    assert(!occurs_at(s@, p@, k));
                } else if k > i {
                    assert(!occurs_at(s@, p@, i as int));
                }
            }
            return Some(i);
        }
        if i == last {
            break;
        }
        i = i + 1;
    }
    assert forall|j: int| !#[trigger] occurs_at(s@, p@, j) by {
        if 0 <= j <= last {
        }
    }
    None
}

/// Whether `p` occurs in `s`.
pub fn contains_exec(s: &[char], p: &[char]) -> (r: bool)
    ensures
        r == contains(s@, p@),
{
    match find_exec(s, p) {
        Some(i) => true,
        None => false,
    }
}

/// Whether `s` begins with `p`.
pub fn starts_with_exec(s: &[char], p: &[char]) -> (r: bool)
    ensures
        r == starts_with(s@, p@),
{
    if p.len() > s.len() {
        return false;
    }
    let r = occurs_at_exec(s, p, 0);
    assert(s@.subrange(0, p.len() as int) =~= s@.take(p.len() as int));
    r
}

/// `s` ends with `p`.
pub open spec fn ends_with(s: Seq<char>, p: Seq<char>) -> bool {
    p.len() <= s.len() && s.skip(s.len() - p.len()) == p
}

/// Whether `s` ends with `p`.
pub fn ends_with_exec(s: &[char], p: &[char]) -> (r: bool)
    ensures
        r == ends_with(s@, p@),
{
    if p.len() > s.len() {
        return false;
    }
    let start = s.len() - p.len();
    let r = occurs_at_exec(s, p, start);
    assert(s@.subrange(start as int, start + p.len()) =~= s@.skip(s@.len() - p@.len()));
    r
}

/// Whether `s` ends with the text of `lit`.
pub fn ends_with_str(s: &[char], lit: &str) -> (r: bool)
    ensures
        r == ends_with(s@, lit@),
{
    let p = chars_of(lit);
    ends_with_exec(s, p.as_slice())
}

/// Whether `s` is exactly the text of `lit`.
pub fn equals_str(s: &[char], lit: &str) -> (r: bool)
    ensures
        r == (s@ == lit@),
{
    let p = chars_of(lit);
    if s.len() != p.len() {
        return false;
    }
    let r = starts_with_exec(s, p.as_slice());
    assert(s@.take(p.len() as int) =~= s@);
    r
}

/// The pieces of `s` between its `'\n'` characters; there is always at
/// least one, the last one holding what follows the last `'\n'`.
pub open spec fn newline_pieces(s: Seq<char>) -> Seq<Seq<char>>
    decreases s.len(),
{
    if s.len() == 0 {
        seq![seq![]]
    } else {
        let p = newline_pieces(s.drop_last());
        if s.last() == '\n' {
            p.push(seq![])
        } else {
            p.update(p.len() - 1, p.last().push(s.last()))
        }
    }
}

/// A line that ended in `"\r\n"` loses its `'\r'`.
pub open spec fn strip_cr(x: Seq<char>) -> Seq<char> {
    if x.len() > 0 && x.last() == '\r' {
        x.drop_last()
    } else {
        x
    }
}

pub open spec fn strip_all(p: Seq<Seq<char>>) -> Seq<Seq<char>> {
    p.map_values(|x: Seq<char>| strip_cr(x))
}

/// The lines of `s`, as `str::lines` yields them: split at `'\n'`, each
/// terminated line losing a `'\r'` just before its `'\n'`, and no line for
/// an empty remainder after the last `'\n'`.
pub open spec fn lines(s: Seq<char>) -> Seq<Seq<char>> {
    let p = newline_pieces(s);
    let done = strip_all(p.drop_last());
    if p.last().len() == 0 {
        done
    } else {
        done.push(p.last())
    }
}

/// Splits `s` into its lines.
pub fn split_lines(s: &[char]) -> (out: Vec<Vec<char>>)
    ensures
        rows_view(out@) == lines(s@),
{
    let mut out: Vec<Vec<char>> = Vec::new();
    let mut cur: Vec<char> = Vec::new();
    let mut i: usize = 0;
    while i < s.len()
        invariant
            0 <= i <= s.len(),
            newline_pieces(s@.take(i as int)).len() >= 1,
            rows_view(out@) == strip_all(newline_pieces(s@.take(i as int)).drop_last()),
            cur@ == newline_pieces(s@.take(i as int)).last(),
        decreases s.len() - i,
    {
        let c = s[i];
        let ghost pre = s@.take(i as int);
        let ghost p = newline_pieces(pre);
        assert(s@.take(i + 1).drop_last() =~= pre);
        assert(s@.take(i + 1).last() == c);
        if c == '\n' {
            let mut done = cur;
            let ghost raw = done@;
            if done.len() > 0 && done[done.len() - 1] == '\r' {
                done.pop();
            }
            assert(done@ =~= strip_cr(raw));
            let ghost old_rows = rows_view(out@);
            out.push(done);
            assert(rows_view(out@) =~= old_rows.push(strip_cr(p.last())));
            assert(strip_all(p) =~= strip_all(p.drop_last()).push(strip_cr(p.last())));
            cur = Vec::new();
            assert(p.push(seq![]).drop_last() =~= p);
            assert(rows_view(out@) =~= strip_all(p));
            assert(cur@ =~= p.push(seq![]).last());
        } else {
            cur.push(c);
            assert(p.update(p.len() - 1, p.last().push(c)).drop_last() =~= p.drop_last());
        }
        i = i + 1;
    }
    assert(s@.take(s.len() as int) =~= s@);
    if cur.len() > 0 {
        out.push(cur);
        assert(rows_view(out@) =~= lines(s@));
    }
    out
}

/// The number of whitespace characters `s` begins with.
pub open spec fn leading_spaces(s: Seq<char>) -> nat
    decreases s.len(),
{
    if s.len() > 0 && is_space(s[0]) {
        1 + leading_spaces(s.drop_first())
    } else {
        0
    }
}

/// `s` without its leading whitespace (what `str::trim_start` gives).
pub open spec fn trim_start(s: Seq<char>) -> Seq<char> {
    s.skip(leading_spaces(s) as int)
}

pub proof fn lemma_leading_spaces_bound(s: Seq<char>)
    ensures
        leading_spaces(s) <= s.len(),
    decreases s.len(),
{
    if s.len() > 0 && is_space(s[0]) {
        lemma_leading_spaces_bound(s.drop_first());
    }
}

/// The number of whitespace characters `s` begins with.
pub fn leading_spaces_exec(s: &[char]) -> (n: usize)
    ensures
        n == leading_spaces(s@),
{
    let mut i: usize = 0;
    assert(s@.skip(0) =~= s@);
    while i < s.len() && is_space_char(s[i])
        invariant
            0 <= i <= s.len(),
            leading_spaces(s@) == i + leading_spaces(s@.skip(i as int)),
        decreases s.len() - i,
    {
        assert(s@.skip(i as int).drop_first() =~= s@.skip(i + 1));
        i = i + 1;
    }
    i
}

pub open spec fn is_digit(c: char) -> bool {
    '0' <= c && c <= '9'
}

pub open spec fn digit_value(c: char) -> nat {
    (c as int - '0' as int) as nat
}

/// The number a string of decimal digits denotes.
pub open spec fn decimal_value(s: Seq<char>) -> nat
    decreases s.len(),
{
    if s.len() == 0 {
        0
    } else {
        decimal_value(s.drop_last()) * 10 + digit_value(s.last())
    }
}

pub open spec fn all_digits(s: Seq<char>) -> bool {
    forall|i: int| 0 <= i < s.len() ==> #[trigger] is_digit(s[i])
}

/// `s` without the one `'+'` sign it may begin with.
pub open spec fn unsigned_digits(s: Seq<char>) -> Seq<char> {
    if s.len() > 0 && s[0] == '+' {
        s.skip(1)
    } else {
        s
    }
}

/// What `str::parse` gives for an unsigned integer type whose largest
/// value is `max`: an optional `'+'`, then at least one decimal digit and
/// nothing else, denoting a value no greater than `max`.
pub open spec fn parse_unsigned(s: Seq<char>, max: nat) -> Option<nat> {
    let d = unsigned_digits(s);
    if d.len() > 0 && all_digits(d) && decimal_value(d) <= max {
        Some(decimal_value(d))
    } else {
        None
    }
}

pub open spec fn parse_u32(s: Seq<char>) -> Option<u32> {
    match parse_unsigned(s, u32::MAX as nat) {
        Some(v) => Some(v as u32),
        None => None,
    }
}

pub open spec fn parse_u16(s: Seq<char>) -> Option<u16> {
    match parse_unsigned(s, u16::MAX as nat) {
        Some(v) => Some(v as u16),
        None => None,
    }
}

pub proof fn lemma_decimal_value_prefix(s: Seq<char>, k: int)
    requires
        0 <= k <= s.len(),
    ensures
        decimal_value(s.take(k)) <= decimal_value(s),
    decreases s.len(),
{
    if k < s.len() {
        assert(s.drop_last().take(k) =~= s.take(k));
        lemma_decimal_value_prefix(s.drop_last(), k);
    } else {
        assert(s.take(k) =~= s);
    }
}

/// Parses an unsigned decimal integer no greater than `max`.
pub fn parse_unsigned_exec(s: &[char], max: u64) -> (r: Option<u64>)
    ensures
        match r {
            Some(v) => parse_unsigned(s@, max as nat) == Some(v as nat),
            None => parse_unsigned(s@, max as nat) is None,
        },
{
    let start: usize = if s.len() > 0 && s[0] == '+' {
        1
    } else {
        0
    };
    let ghost d = unsigned_digits(s@);
    assert(d =~= s@.skip(start as int));
    if start == s.len() {
        return None;
    }
    let mut acc: u64 = 0;
    let mut i: usize = start;
    while i < s.len()
        invariant
            start <= i <= s.len(),
            d =~= s@.skip(start as int),
            d == unsigned_digits(s@),
            acc as nat == decimal_value(d.take(i - start)),
            acc <= max,
            forall|t: int| 0 <= t < i - start ==> #[trigger] is_digit(d[t]),
        decreases s.len() - i,
    {
        let c = s[i];
        assert(d[i - start] == c);
        if !('0' <= c && c <= '9') {
            assert(!is_digit(d[i - start]));
            return None;
        }
        let v: u128 = (acc as u128) * 10 + ((c as u32 - '0' as u32) as u128);
        assert(d.take(i - start + 1).drop_last() =~= d.take(i - start));
        assert(v == decimal_value(d.take(i - start + 1)));
        if v > max as u128 {
            proof {
                if all_digits(d) {
                    lemma_decimal_value_prefix(d, i - start + 1);
                }
            }
            return None;
        }
        acc = v as u64;
        i = i + 1;
    }
    assert(d.take(i - start) =~= d);
    Some(acc)
}

/// Parses a `u32` as `str::parse::<u32>` does.
pub fn parse_u32_exec(s: &[char]) -> (r: Option<u32>)
    ensures
        r == parse_u32(s@),
{
    match parse_unsigned_exec(s, u32::MAX as u64) {
        Some(v) => Some(v as u32),
        None => None,
    }
}

/// Parses a `u16` as `str::parse::<u16>` does.
pub fn parse_u16_exec(s: &[char]) -> (r: Option<u16>)
    ensures
        r == parse_u16(s@),
{
    match parse_unsigned_exec(s, u16::MAX as u64) {
        Some(v) => Some(v as u16),
        None => None,
    }
}

/// The character of a decimal digit.
pub open spec fn digit_char(d: nat) -> char {
    ((d + 48) as u8) as char
}

/// The decimal numeral of `n`, as `{}` formats an unsigned integer.
pub open spec fn decimal(n: nat) -> Seq<char>
    decreases n,
{
    if n < 10 {
        seq![digit_char(n)]
    } else {
        decimal(n / 10).push(digit_char(n % 10))
    }
}

/// Appends the decimal numeral of `n`.
pub fn push_decimal(s: &mut String, n: u64)
    ensures
        final(s)@ == old(s)@ + decimal(n as nat),
    decreases n,
{
    if n >= 10 {
        push_decimal(s, n / 10);
    }
    let d: u8 = (n % 10) as u8;
    string_push(s, (d + 48) as char);
    if n >= 10 {
        assert(final(s)@ =~= old(s)@ + decimal(n as nat));
    } else {
        assert(final(s)@ =~= old(s)@ + decimal(n as nat));
    }
}

/// A string holding the given characters.
pub fn string_of(cs: &[char]) -> (s: String)
    ensures
        s@ == cs@,
{
    let mut s = String::new();
    let mut i: usize = 0;
    while i < cs.len()
        invariant
            0 <= i <= cs.len(),
            s@ == cs@.take(i as int),
        decreases cs.len() - i,
    {
        string_push(&mut s, cs[i]);
        assert(s@ =~= cs@.take(i + 1));
        i = i + 1;
    }
    assert(cs@.take(cs.len() as int) =~= cs@);
    s
}

/// The characters of `s` from index `start` on.
pub fn chars_from(s: &[char], start: usize) -> (r: Vec<char>)
    requires
        start <= s.len(),
    ensures
        r@ == s@.skip(start as int),
{
    let mut r: Vec<char> = Vec::new();
    let mut i: usize = start;
    while i < s.len()
        invariant
            start <= i <= s.len(),
            r@ == s@.subrange(start as int, i as int),
        decreases s.len() - i,
    {
        r.push(s[i]);
        assert(r@ =~= s@.subrange(start as int, i + 1));
        i = i + 1;
    }
    assert(r@ =~= s@.skip(start as int));
    r
}

/// Whether the text of `lit` occurs in `s`.
pub fn contains_str(s: &[char], lit: &str) -> (r: bool)
    ensures
        r == contains(s@, lit@),
{
    let p = chars_of(lit);
    contains_exec(s, p.as_slice())
}

} // verus!
