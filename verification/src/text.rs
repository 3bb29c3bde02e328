//! Character-level text primitives: substring search, occurrence counting,
//! line splitting and trimming, each with its mathematical definition.

use vstd::prelude::*;

verus! {

/// `pat` occurs in `text` at position `i`.
pub open spec fn occurs_at(text: Seq<char>, pat: Seq<char>, i: int) -> bool {
    &&& 0 <= i
    &&& i + pat.len() <= text.len()
    &&& text.subrange(i, i + pat.len()) == pat
}

/// `pat` occurs somewhere in `text`.
pub open spec fn contains(text: Seq<char>, pat: Seq<char>) -> bool {
    exists|i: int| occurs_at(text, pat, i)
}

/// `text` begins with `pat`.
pub open spec fn starts_with(text: Seq<char>, pat: Seq<char>) -> bool {
    occurs_at(text, pat, 0)
}

/// Number of occurrences of `pat` found by scanning `text` from position `i`
/// to the right, each search resuming just after the previous occurrence, so
/// that counted occurrences never overlap. An empty pattern counts zero.
pub open spec fn occurrences_from(text: Seq<char>, pat: Seq<char>, i: int) -> nat
    decreases text.len() - i,
{
    if i < 0 || pat.len() == 0 || i + pat.len() > text.len() {
        0
    } else if occurs_at(text, pat, i) {
        1 + occurrences_from(text, pat, i + pat.len())
    } else {
        occurrences_from(text, pat, i + 1)
    }
}

/// Number of non-overlapping occurrences of `pat` in `text`, left to right.
pub open spec fn occurrences(text: Seq<char>, pat: Seq<char>) -> nat {
    occurrences_from(text, pat, 0)
}

/// Number of positions of `text` that hold the character `c`.
pub open spec fn char_occurrences(text: Seq<char>, c: char) -> nat
    decreases text.len(),
{
    if text.len() == 0 {
        0
    } else {
        char_occurrences(text.drop_last(), c) + if text.last() == c {
            1nat
        } else {
            0nat
        }
    }
}

/// The characters with the Unicode property White_Space.
pub open spec fn is_whitespace(c: char) -> bool {
    let n = c as u32;
    ||| n == 0x20
    ||| 0x09 <= n <= 0x0d
    ||| n == 0x85
    ||| n == 0xa0
    ||| n == 0x1680
    ||| 0x2000 <= n <= 0x200a
    ||| n == 0x2028
    ||| n == 0x2029
    ||| n == 0x202f
    ||| n == 0x205f
    ||| n == 0x3000
}

/// Index of the first character at or after `i` that is not white space, or
/// the length of `s` when there is none.
pub open spec fn skip_whitespace(s: Seq<char>, i: int) -> int
    decreases s.len() - i,
{
    if i < 0 || i >= s.len() {
        s.len() as int
    } else if !is_whitespace(s[i]) {
        i
    } else {
        skip_whitespace(s, i + 1)
    }
}

/// One past the index of the last character before `j` that is not white
/// space, or zero when there is none.
pub open spec fn skip_whitespace_back(s: Seq<char>, j: int) -> int
    decreases j,
{
    if j <= 0 || j > s.len() {
        0
    } else if !is_whitespace(s[j - 1]) {
        j
    } else {
        skip_whitespace_back(s, j - 1)
    }
}

/// `s` without its leading and trailing white space.
pub open spec fn trim(s: Seq<char>) -> Seq<char> {
    let a = skip_whitespace(s, 0);
    let b = skip_whitespace_back(s, s.len() as int);
    if a < b {
        s.subrange(a, b)
    } else {
        Seq::empty()
    }
}

/// Index of the first line feed at or after `i`, or the length of `text`.
pub open spec fn line_end(text: Seq<char>, i: int) -> int
    decreases text.len() - i,
{
    if i < 0 || i >= text.len() {
        text.len() as int
    } else if text[i] == '\n' {
        i
    } else {
        line_end(text, i + 1)
    }
}

/// The lines of `text` from position `i` on: the runs of characters between
/// line feeds. A line feed at the very end starts no further line. A carriage
/// return stays with its line.
pub open spec fn lines_from(text: Seq<char>, i: int) -> Seq<Seq<char>>
    decreases text.len() - i,
{
    if i < 0 || i >= text.len() {
        Seq::empty()
    } else {
        let e = line_end(text, i);
        proof {
            lemma_line_end_bounds(text, i);
        }
        if e >= text.len() {
            seq![text.subrange(i, e)]
        } else {
            seq![text.subrange(i, e)] + lines_from(text, e + 1)
        }
    }
}

/// A line ends at or after its start and within the text.
pub proof fn lemma_line_end_bounds(text: Seq<char>, i: int)
    requires
        0 <= i <= text.len(),
    ensures
        i <= line_end(text, i) <= text.len(),
    decreases text.len() - i,
{
    if i < text.len() && text[i] != '\n' {
        lemma_line_end_bounds(text, i + 1);
    }
}

/// The lines of `text`.
pub open spec fn lines(text: Seq<char>) -> Seq<Seq<char>> {
    lines_from(text, 0)
}

/// The characters of a string, in order.
pub fn to_chars(s: &str) -> (v: Vec<char>)
    ensures
        v@ == s@,
{
    let mut v: Vec<char> = Vec::new();
    for c in it: s.chars()
        invariant
            it.seq() == s@,
            v@ == it.seq().take(it.index() as int),
    {
        v.push(c);
    }
    v
}

/// Tells whether two strings hold the same characters.
pub fn same_text(a: &str, b: &str) -> (same: bool)
    ensures
        same == (a@ == b@),
{
    a.to_owned() == b.to_owned()
}

/// The characters of `a` followed by those of `b`.
pub fn concat_chars(a: &str, b: &str) -> (v: Vec<char>)
    ensures
        v@ == a@ + b@,
{
    let mut v = to_chars(a);
    let tail = to_chars(b);
    let mut i: usize = 0;
    while i < tail.len()
        invariant
            i <= tail.len(),
            tail@ == b@,
            v@ == a@ + b@.take(i as int),
        decreases tail.len() - i,
    {
        v.push(tail[i]);
        i = i + 1;
    }
    assert(b@.take(b@.len() as int) =~= b@);
    v
}

/// Tells whether `c` is white space.
pub fn is_whitespace_char(c: char) -> (b: bool)
    ensures
        b == is_whitespace(c),
{
    let n: u32 = c as u32;
    n == 0x20 || (0x09 <= n && n <= 0x0d) || n == 0x85 || n == 0xa0 || n == 0x1680 || (0x2000 <= n
        && n <= 0x200a) || n == 0x2028 || n == 0x2029 || n == 0x202f || n == 0x205f || n
        == 0x3000
}

/// Tells whether `pat` occurs in the range `lo..hi` of `text` at offset `i`
/// of that range.
pub fn range_occurs_at(text: &Vec<char>, lo: usize, hi: usize, pat: &Vec<char>, i: usize) -> (b:
    bool)
    requires
        lo <= hi <= text.len(),
    ensures
        b == occurs_at(text@.subrange(lo as int, hi as int), pat@, i as int),
{
    let n = hi - lo;
    if i > n || pat.len() > n - i {
        return false;
    }
    let ghost window = text@.subrange(lo as int, hi as int);
    let mut k: usize = 0;
    while k < pat.len()
        invariant
            lo <= hi <= text.len(),
            n == hi - lo,
            i <= n,
            pat.len() <= n - i,
            k <= pat.len(),
            window == text@.subrange(lo as int, hi as int),
            forall|j: int| 0 <= j < k ==> window[i + j] == pat@[j],
        decreases pat.len() - k,
    {
        if text[lo + i + k] != pat[k] {
            assert(window.subrange(i as int, i + pat.len())[k as int] == window[i + k]);
            return false;
        }
        k = k + 1;
    }
    assert(window.subrange(i as int, i + pat.len()) =~= pat@);
    true
}

/// Tells whether `pat` occurs in `text` at position `i`.
pub fn occurs_at_index(text: &Vec<char>, pat: &Vec<char>, i: usize) -> (b: bool)
    ensures
        b == occurs_at(text@, pat@, i as int),
{
    assert(text@.subrange(0, text.len() as int) =~= text@);
    range_occurs_at(text, 0, text.len(), pat, i)
}

/// Tells whether the range `lo..hi` of `text` begins with `pat`.
pub fn range_starts_with(text: &Vec<char>, lo: usize, hi: usize, pat: &Vec<char>) -> (b: bool)
    requires
        lo <= hi <= text.len(),
    ensures
        b == starts_with(text@.subrange(lo as int, hi as int), pat@),
{
    range_occurs_at(text, lo, hi, pat, 0)
}

/// Tells whether `pat` occurs somewhere in `text`.
pub fn contains_pattern(text: &Vec<char>, pat: &Vec<char>) -> (b: bool)
    ensures
        b == contains(text@, pat@),
{
    if pat.len() > text.len() {
        return false;
    }
    let last = text.len() - pat.len();
    let mut i: usize = 0;
    while i < last
        invariant
            pat.len() <= text.len(),
            last == text.len() - pat.len(),
            i <= last,
            forall|j: int| 0 <= j < i ==> !occurs_at(text@, pat@, j),
        decreases last - i,
    {
        if occurs_at_index(text, pat, i) {
            return true;
        }
        i = i + 1;
    }
    occurs_at_index(text, pat, last)
}

/// Counts the non-overlapping occurrences of `pat` in `text`, left to right.
pub fn count_occurrences(text: &Vec<char>, pat: &Vec<char>) -> (n: usize)
    ensures
        n == occurrences(text@, pat@),
{
    if pat.len() == 0 || pat.len() > text.len() {
        return 0;
    }
    let last = text.len() - pat.len();
    let mut i: usize = 0;
    let mut n: usize = 0;
    while i <= last
        invariant
            0 < pat.len() <= text.len(),
            last == text.len() - pat.len(),
            n <= i,
            n + occurrences_from(text@, pat@, i as int) == occurrences(text@, pat@),
        decreases text.len() - i,
    {
        if occurs_at_index(text, pat, i) {
            n = n + 1;
            i = i + pat.len();
        } else {
            i = i + 1;
        }
    }
    n
}

/// Counts the positions of the range `lo..hi` of `text` that hold `c`.
pub fn count_char(text: &Vec<char>, lo: usize, hi: usize, c: char) -> (n: usize)
    requires
        lo <= hi <= text.len(),
    ensures
        n == char_occurrences(text@.subrange(lo as int, hi as int), c),
        n <= hi - lo,
{
    let mut i: usize = lo;
    let mut n: usize = 0;
    while i < hi
        invariant
            lo <= i <= hi <= text.len(),
            n <= i - lo,
            n == char_occurrences(text@.subrange(lo as int, i as int), c),
        decreases hi - i,
    {
        assert(text@.subrange(lo as int, i + 1).drop_last() =~= text@.subrange(
            lo as int,
            i as int,
        ));
        if text[i] == c {
            n = n + 1;
        }
        i = i + 1;
    }
    n
}

/// Finds the end of the line that starts at `i`.
pub fn find_line_end(text: &Vec<char>, i: usize) -> (e: usize)
    requires
        i <= text.len(),
    ensures
        e == line_end(text@, i as int),
        i <= e <= text.len(),
        forall|j: int| i <= j < e ==> text@[j] != '\n',
        e < text.len() ==> text@[e as int] == '\n',
{
    let mut e: usize = i;
    while e < text.len() && text[e] != '\n'
        invariant
            i <= e <= text.len(),
            line_end(text@, e as int) == line_end(text@, i as int),
            forall|j: int| i <= j < e ==> text@[j] != '\n',
        decreases text.len() - e,
    {
        e = e + 1;
    }
    e
}

/// Finds the bounds of the range `lo..hi` of `text` once leading and trailing
/// white space is left out.
pub fn trim_range(text: &Vec<char>, lo: usize, hi: usize) -> (r: (usize, usize))
    requires
        lo <= hi <= text.len(),
    ensures
        lo <= r.0 <= r.1 <= hi,
        text@.subrange(r.0 as int, r.1 as int) == trim(text@.subrange(lo as int, hi as int)),
{
    let ghost line = text@.subrange(lo as int, hi as int);
    let mut a: usize = lo;
    while a < hi && is_whitespace_char(text[a])
        invariant
            lo <= a <= hi <= text.len(),
            line == text@.subrange(lo as int, hi as int),
            skip_whitespace(line, a - lo) == skip_whitespace(line, 0),
        decreases hi - a,
    {
        a = a + 1;
    }
    let mut b: usize = hi;
    while b > lo && is_whitespace_char(text[b - 1])
        invariant
            lo <= b <= hi <= text.len(),
            line == text@.subrange(lo as int, hi as int),
            skip_whitespace_back(line, b - lo) == skip_whitespace_back(line, line.len() as int),
        decreases b - lo,
    {
        b = b - 1;
    }
    if a < b {
        assert(text@.subrange(a as int, b as int) =~= line.subrange(a - lo, b - lo));
        (a, b)
    } else {
        assert(text@.subrange(a as int, a as int) =~= Seq::<char>::empty());
        (a, a)
    }
}

} // verus!
