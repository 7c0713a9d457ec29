//! Character-level helpers shared by every stage of the translator.
//!
//! All stages work on `Vec<char>` in executable code and on `Seq<char>` in
//! specifications; the functions here move text in and out of that form.

use vstd::prelude::*;
use vstd::std_specs::iter::IteratorSpec;

verus! {

/// Appends one character to a `String`.
///
/// Trusted: `String::push` of the standard library extends the string by
/// exactly the given character and changes nothing before it.
pub assume_specification[ String::push ](s: &mut String, c: char)
    ensures
        final(s)@ == old(s)@.push(c),
;

/// Copies the characters of `s` into a vector.
pub fn to_chars(s: &str) -> (v: Vec<char>)
    ensures
        v@ == s@,
{
    broadcast use vstd::string::group_string_axioms;

    let mut v: Vec<char> = Vec::new();
    let mut it = s.chars();
    loop
        invariant
            s@ == v@ + it.remaining(),
            it.decrease() is Some,
        ensures
            v@ == s@,
        decreases it.decrease()->0,
    {
        match it.next() {
            Some(c) => {
                v.push(c);
            },
            None => {
                break ;
            },
        }
    }
    v
}

/// Builds a `String` holding exactly the characters of `v`.
pub fn to_string(v: &Vec<char>) -> (s: String)
    ensures
        s@ == v@,
{
    let mut s = String::new();
    let mut i: usize = 0;
    while i < v.len()
        invariant
            i <= v.len(),
            s@ == v@.subrange(0, i as int),
        decreases v.len() - i,
    {
        s.push(v[i]);
        i = i + 1;
    }
    assert(v@.subrange(0, v.len() as int) == v@);
    s
}

/// Appends the characters of `s` to `out`.
pub fn push_str(out: &mut Vec<char>, s: &str)
    ensures
        final(out)@ == old(out)@ + s@,
{
    broadcast use vstd::string::group_string_axioms;

    let mut it = s.chars();
    let ghost done: Seq<char> = Seq::empty();
    loop
        invariant
            s@ == done + it.remaining(),
            out@ == old(out)@ + done,
            it.decrease() is Some,
        ensures
            out@ == old(out)@ + s@,
        decreases it.decrease()->0,
    {
        match it.next() {
            Some(c) => {
                out.push(c);
                proof {
                    done = done.push(c);
                }
            },
            None => {
                break ;
            },
        }
    }
}

/// Appends `src[lo..hi)` to `out`.
pub fn push_range(out: &mut Vec<char>, src: &Vec<char>, lo: usize, hi: usize)
    requires
        lo <= hi <= src.len(),
    ensures
        final(out)@ == old(out)@ + src@.subrange(lo as int, hi as int),
{
    let mut i: usize = lo;
    while i < hi
        invariant
            lo <= i <= hi <= src.len(),
            out@ == old(out)@ + src@.subrange(lo as int, i as int),
        decreases hi - i,
    {
        out.push(src[i]);
        i = i + 1;
    }
}

/// Appends every character of `src` to `out`.
pub fn push_all(out: &mut Vec<char>, src: &Vec<char>)
    ensures
        final(out)@ == old(out)@ + src@,
{
    push_range(out, src, 0, src.len());
    assert(src@.subrange(0, src.len() as int) == src@);
}

/// Copies `src[lo..hi)` into a fresh vector.
pub fn copy_range(src: &Vec<char>, lo: usize, hi: usize) -> (v: Vec<char>)
    requires
        lo <= hi <= src.len(),
    ensures
        v@ == src@.subrange(lo as int, hi as int),
{
    let mut v: Vec<char> = Vec::new();
    push_range(&mut v, src, lo, hi);
    v
}

/// Copies a text.
pub fn copy_text(src: &Vec<char>) -> (v: Vec<char>)
    ensures
        v@ == src@,
{
    let v = copy_range(src, 0, src.len());
    assert(src@.subrange(0, src.len() as int) == src@);
    v
}

/// Whether two texts hold the same characters.
pub fn same_text(a: &Vec<char>, b: &Vec<char>) -> (r: bool)
    ensures
        r == (a@ == b@),
{
    if a.len() != b.len() {
        return false;
    }
    let mut i: usize = 0;
    while i < a.len()
        invariant
            i <= a.len() == b.len(),
            forall|k: int| 0 <= k < i ==> a@[k] == b@[k],
        decreases a.len() - i,
    {
        if a[i] != b[i] {
            return false;
        }
        i = i + 1;
    }
    assert(a@ =~= b@);
    true
}

/// A set of characters, named so that one scanning loop serves them all.
#[derive(Clone, Copy, Debug)]
pub enum CharClass {
    /// Exactly this character.
    Is(char),
    /// A space or a tab.
    Blank,
    /// A decimal digit.
    Digit,
    /// A character that may stand in a footnote label: anything but
    /// whitespace and square brackets.
    Label,
    /// A character inside a table cell: anything but `|` and a tab.
    Cell,
    /// A character inside a line: anything but a line feed.
    Line,
}

/// Whether `c` belongs to `cls`.
pub open spec fn in_class(cls: CharClass, c: char) -> bool {
    match cls {
        CharClass::Is(d) => c == d,
        CharClass::Blank => c == ' ' || c == '\t',
        CharClass::Digit => '0' <= c && c <= '9',
        CharClass::Label => c != ' ' && c != '\t' && c != '\n' && c != '[' && c != ']',
        CharClass::Cell => c != '|' && c != '\t',
        CharClass::Line => c != '\n',
    }
}

/// The end of the longest run of `cls` characters that starts at `i` and
/// stays below `hi`.
pub open spec fn run_end(t: Seq<char>, cls: CharClass, i: int, hi: int) -> int
    decreases hi - i,
{
    if 0 <= i < hi <= t.len() && in_class(cls, t[i]) {
        run_end(t, cls, i + 1, hi)
    } else {
        i
    }
}

/// The start of the longest run of `cls` characters that ends at `hi` and
/// stays at or above `lo`.
pub open spec fn run_start(t: Seq<char>, cls: CharClass, lo: int, hi: int) -> int
    decreases hi - lo,
{
    if 0 <= lo < hi <= t.len() && in_class(cls, t[hi - 1]) {
        run_start(t, cls, lo, hi - 1)
    } else {
        hi
    }
}

/// The end of the line that holds position `p`: the next line feed, or the
/// end of the text.
pub open spec fn line_end(t: Seq<char>, p: int) -> int {
    run_end(t, CharClass::Line, p, t.len() as int)
}

/// The start of the line after the one that ends at `e`.
pub open spec fn next_line(t: Seq<char>, e: int) -> int {
    if e < t.len() {
        e + 1
    } else {
        t.len() as int
    }
}

/// `t[lo..hi)` without the blanks at its start.
pub open spec fn trim_lo(t: Seq<char>, lo: int, hi: int) -> int {
    run_end(t, CharClass::Blank, lo, hi)
}

/// `t[lo..hi)` without the blanks at its end, once those at its start are gone.
pub open spec fn trim_hi(t: Seq<char>, lo: int, hi: int) -> int {
    run_start(t, CharClass::Blank, trim_lo(t, lo, hi), hi)
}

/// A run starts where it was asked to, ends at or before `hi`, holds only
/// characters of the class, and stops at the first character outside it.
pub proof fn lemma_run_end(t: Seq<char>, cls: CharClass, i: int, hi: int)
    requires
        0 <= i <= hi <= t.len(),
    ensures
        i <= run_end(t, cls, i, hi) <= hi,
        forall|k: int| i <= k < run_end(t, cls, i, hi) ==> in_class(cls, #[trigger] t[k]),
        run_end(t, cls, i, hi) < hi ==> !in_class(cls, t[run_end(t, cls, i, hi)]),
    decreases hi - i,
{
    if i < hi && in_class(cls, t[i]) {
        lemma_run_end(t, cls, i + 1, hi);
    }
}

/// The mirror image of [`lemma_run_end`].
pub proof fn lemma_run_start(t: Seq<char>, cls: CharClass, lo: int, hi: int)
    requires
        0 <= lo <= hi <= t.len(),
    ensures
        lo <= run_start(t, cls, lo, hi) <= hi,
        forall|k: int| run_start(t, cls, lo, hi) <= k < hi ==> in_class(cls, #[trigger] t[k]),
        lo < run_start(t, cls, lo, hi) ==> !in_class(cls, t[run_start(t, cls, lo, hi) - 1]),
    decreases hi - lo,
{
    if lo < hi && in_class(cls, t[hi - 1]) {
        lemma_run_start(t, cls, lo, hi - 1);
    }
}

/// The line after a line starts strictly later, unless the text is over.
pub proof fn lemma_next_line(t: Seq<char>, p: int)
    requires
        0 <= p <= t.len(),
    ensures
        p <= line_end(t, p) <= t.len(),
        line_end(t, p) <= next_line(t, line_end(t, p)) <= t.len(),
        p < t.len() ==> p < next_line(t, line_end(t, p)),
{
    lemma_run_end(t, CharClass::Line, p, t.len() as int);
}

/// Whether `c` belongs to `cls`.
pub fn has_class(cls: CharClass, c: char) -> (r: bool)
    ensures
        r == in_class(cls, c),
{
    match cls {
        CharClass::Is(d) => c == d,
        CharClass::Blank => c == ' ' || c == '\t',
        CharClass::Digit => c >= '0' && c <= '9',
        CharClass::Label => c != ' ' && c != '\t' && c != '\n' && c != '[' && c != ']',
        CharClass::Cell => c != '|' && c != '\t',
        CharClass::Line => c != '\n',
    }
}

/// Walks over the run of `cls` characters that starts at `i`.
pub fn scan_run(v: &Vec<char>, cls: CharClass, i: usize, hi: usize) -> (r: usize)
    requires
        i <= hi <= v.len(),
    ensures
        r == run_end(v@, cls, i as int, hi as int),
        i <= r <= hi,
{
    let mut k: usize = i;
    while k < hi && has_class(cls, v[k])
        invariant
            i <= k <= hi <= v.len(),
            run_end(v@, cls, i as int, hi as int) == run_end(v@, cls, k as int, hi as int),
        decreases hi - k,
    {
        k = k + 1;
    }
    k
}

/// Walks back over the run of `cls` characters that ends at `hi`.
pub fn scan_run_back(v: &Vec<char>, cls: CharClass, lo: usize, hi: usize) -> (r: usize)
    requires
        lo <= hi <= v.len(),
    ensures
        r == run_start(v@, cls, lo as int, hi as int),
        lo <= r <= hi,
{
    let mut k: usize = hi;
    while k > lo && has_class(cls, v[k - 1])
        invariant
            lo <= k <= hi <= v.len(),
            run_start(v@, cls, lo as int, hi as int) == run_start(v@, cls, lo as int, k as int),
        decreases k - lo,
    {
        k = k - 1;
    }
    k
}

/// Finds the end of the line that holds position `p`.
pub fn find_line_end(v: &Vec<char>, p: usize) -> (e: usize)
    requires
        p <= v.len(),
    ensures
        e == line_end(v@, p as int),
        p <= e <= v.len(),
{
    scan_run(v, CharClass::Line, p, v.len())
}

/// The start of the line after the one that ends at `e`.
pub fn step_line(v: &Vec<char>, e: usize) -> (q: usize)
    requires
        e <= v.len(),
    ensures
        q == next_line(v@, e as int),
        e <= q <= v.len(),
{
    if e < v.len() {
        e + 1
    } else {
        e
    }
}

/// Cuts the blanks off both ends of `v[lo..hi)`.
pub fn trim(v: &Vec<char>, lo: usize, hi: usize) -> (r: (usize, usize))
    requires
        lo <= hi <= v.len(),
    ensures
        r.0 == trim_lo(v@, lo as int, hi as int),
        r.1 == trim_hi(v@, lo as int, hi as int),
        lo <= r.0 <= r.1 <= hi,
{
    let a = scan_run(v, CharClass::Blank, lo, hi);
    let b = scan_run_back(v, CharClass::Blank, a, hi);
    (a, b)
}

/// Whether the line `t[p..e)` holds nothing but blanks.
pub open spec fn is_blank_line(t: Seq<char>, p: int, e: int) -> bool {
    run_end(t, CharClass::Blank, p, e) == e
}

/// The start of the first line at or after `q` that is not blank, or the
/// end of the text.
pub open spec fn skip_blank(t: Seq<char>, q: int) -> int
    decreases t.len() - q,
{
    if 0 <= q < t.len() && is_blank_line(t, q, line_end(t, q)) {
        proof {
            lemma_next_line(t, q);
        }
        skip_blank(t, next_line(t, line_end(t, q)))
    } else {
        q
    }
}

/// Skipping blank lines moves forward, and past a blank line.
pub proof fn lemma_skip_blank(t: Seq<char>, q: int)
    requires
        0 <= q <= t.len(),
    ensures
        q <= skip_blank(t, q) <= t.len(),
        q < t.len() && is_blank_line(t, q, line_end(t, q)) ==> q < skip_blank(t, q),
    decreases t.len() - q,
{
    if q < t.len() && is_blank_line(t, q, line_end(t, q)) {
        lemma_next_line(t, q);
        lemma_skip_blank(t, next_line(t, line_end(t, q)));
    }
}

/// Whether the line `v[p..e)` holds nothing but blanks.
pub fn blank_line(v: &Vec<char>, p: usize, e: usize) -> (r: bool)
    requires
        p <= e <= v.len(),
    ensures
        r == is_blank_line(v@, p as int, e as int),
{
    scan_run(v, CharClass::Blank, p, e) == e
}

/// Walks over the blank lines that start at `q`.
pub fn skip_blank_lines(v: &Vec<char>, q: usize) -> (r: usize)
    requires
        q <= v.len(),
    ensures
        r == skip_blank(v@, q as int),
        q <= r <= v.len(),
{
    let mut cur: usize = q;
    loop
        invariant
            q <= cur <= v.len(),
            skip_blank(v@, q as int) == skip_blank(v@, cur as int),
        ensures
            skip_blank(v@, cur as int) == cur,
        decreases v.len() - cur,
    {
        if cur >= v.len() {
            break ;
        }
        let e = find_line_end(v, cur);
        if !blank_line(v, cur, e) {
            break ;
        }
        proof {
            lemma_next_line(v@, cur as int);
        }
        cur = step_line(v, e);
    }
    cur
}

} // verus!
