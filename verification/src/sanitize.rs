//! The sanitizer: a final pass over Typst text that escapes the characters
//! Typst would otherwise read as markup, while leaving raw (backtick-fenced)
//! regions, existing escapes and function calls untouched.

use vstd::prelude::*;
use crate::text::{push_range, to_chars, to_string};

verus! {

/// The characters that Typst reads as markup when they stand in running text.
pub open spec fn is_markup_char(c: char) -> bool {
    c == '#' || c == '$' || c == '@' || c == '_' || c == '*'
}

/// An ASCII letter; a `#` directly followed by one starts a Typst function
/// call or set rule and is kept as syntax.
pub open spec fn is_ascii_letter(c: char) -> bool {
    ('a' <= c && c <= 'z') || ('A' <= c && c <= 'Z')
}

/// The number of backticks at the start of `s`.
pub open spec fn tick_run(s: Seq<char>) -> nat
    decreases s.len(),
{
    if s.len() > 0 && s[0] == '`' {
        1 + tick_run(s.skip(1))
    } else {
        0
    }
}

/// The first position at or after `from` where `n` backticks in a row start.
pub open spec fn find_close(s: Seq<char>, from: int, n: int) -> Option<int>
    decreases s.len() - from,
{
    if from < 0 || from + n > s.len() {
        None
    } else if tick_run(s.skip(from)) >= n {
        Some(from)
    } else {
        find_close(s, from + 1, n)
    }
}

/// `n` backticks, each behind a backslash.
pub open spec fn escaped_ticks(n: nat) -> Seq<char>
    decreases n,
{
    if n == 0 {
        Seq::empty()
    } else {
        seq!['\\', '`'] + escaped_ticks((n - 1) as nat)
    }
}

/// What the sanitizer makes of `s`.
///
/// Reading from the left:
/// - a backslash and the character after it are an escape and are kept;
/// - a run of `n` backticks opens a raw region that ends with the next `n`
///   backticks in a row; the region is kept untouched, delimiters included.
///   A run that is never closed is no raw region: each of its backticks is
///   escaped;
/// - a `#` directly before an ASCII letter is syntax and is kept;
/// - any other markup character gets a backslash in front of it;
/// - everything else is kept.
pub open spec fn sanitize_spec(s: Seq<char>) -> Seq<char>
    decreases s.len(),
{
    if s.len() == 0 {
        s
    } else if s[0] == '\\' {
        if s.len() >= 2 {
            s.subrange(0, 2) + sanitize_spec(s.skip(2))
        } else {
            s
        }
    } else if s[0] == '`' {
        let n = tick_run(s) as int;
        proof {
            lemma_tick_run_bounds(s);
            lemma_find_close_bounds(s, n, n);
        }
        match find_close(s, n, n) {
            Some(j) => {
                s.subrange(0, j + n) + sanitize_spec(s.skip(j + n))
            },
            None => escaped_ticks(n as nat) + sanitize_spec(s.skip(n)),
        }
    } else if s[0] == '#' && s.len() >= 2 && is_ascii_letter(s[1]) {
        seq!['#'] + sanitize_spec(s.skip(1))
    } else if is_markup_char(s[0]) {
        seq!['\\', s[0]] + sanitize_spec(s.skip(1))
    } else {
        seq![s[0]] + sanitize_spec(s.skip(1))
    }
}

/// A run of backticks lies inside the text and ends before a character that
/// is no backtick.
pub proof fn lemma_tick_run_bounds(s: Seq<char>)
    ensures
        tick_run(s) <= s.len(),
        forall|k: int| 0 <= k < tick_run(s) ==> s[k] == '`',
        tick_run(s) < s.len() ==> s[tick_run(s) as int] != '`',
    decreases s.len(),
{
    if s.len() > 0 && s[0] == '`' {
        lemma_tick_run_bounds(s.skip(1));
        assert forall|k: int| 0 <= k < tick_run(s) implies s[k] == '`' by {
            if k > 0 {
                assert(s.skip(1)[k - 1] == s[k]);
            }
        }
        if tick_run(s) < s.len() {
            assert(s.skip(1)[tick_run(s.skip(1)) as int] == s[tick_run(s) as int]);
        }
    }
}

/// A closing run that was found lies inside the text, at or after `from`.
pub proof fn lemma_find_close_bounds(s: Seq<char>, from: int, n: int)
    ensures
        find_close(s, from, n) matches Some(j) ==> from <= j && 0 <= j && j + n <= s.len()
            && tick_run(s.skip(j)) >= n,
    decreases s.len() - from,
{
    if from < 0 || from + n > s.len() {
    } else if tick_run(s.skip(from)) >= n {
    } else {
        lemma_find_close_bounds(s, from + 1, n);
    }
}

/// No run of `n` backticks starts inside a shorter run.
proof fn lemma_find_close_skips_run(s: Seq<char>, from: int, n: int)
    requires
        0 <= from <= s.len(),
        tick_run(s.skip(from)) < n,
    ensures
        find_close(s, from, n) == find_close(s, from + tick_run(s.skip(from)) + 1, n),
    decreases tick_run(s.skip(from)),
{
    let r = tick_run(s.skip(from));
    lemma_tick_run_bounds(s.skip(from));
    if from + n > s.len() {
    } else if r == 0 {
    } else {
        assert(s.skip(from).skip(1) =~= s.skip(from + 1));
        lemma_find_close_skips_run(s, from + 1, n);
    }
}

/// Two texts that agree on their first `k` characters have the same run of
/// backticks in front, if that run ends before `k`.
proof fn lemma_tick_run_agrees(a: Seq<char>, b: Seq<char>, k: int)
    requires
        0 <= k <= a.len(),
        k <= b.len(),
        forall|i: int| 0 <= i < k ==> a[i] == b[i],
        tick_run(a) < k,
    ensures
        tick_run(b) == tick_run(a),
    decreases k,
{
    if a[0] == '`' {
        lemma_tick_run_agrees(a.skip(1), b.skip(1), k - 1);
    }
}

/// Two texts that agree on their first `n` characters both start with `n`
/// backticks, or neither does.
proof fn lemma_tick_run_reaches(a: Seq<char>, b: Seq<char>, n: int)
    requires
        0 <= n <= a.len(),
        n <= b.len(),
        forall|i: int| 0 <= i < n ==> a[i] == b[i],
        tick_run(a) >= n,
    ensures
        tick_run(b) >= n,
    decreases n,
{
    if n > 0 {
        lemma_tick_run_reaches(a.skip(1), b.skip(1), n - 1);
    }
}

/// Where a closing run is found depends only on the text up to its end.
proof fn lemma_find_close_agrees(a: Seq<char>, b: Seq<char>, from: int, n: int, j: int)
    requires
        0 <= from,
        0 < n,
        find_close(a, from, n) == Some(j),
        j + n <= b.len(),
        forall|i: int| 0 <= i < j + n ==> a[i] == b[i],
    ensures
        find_close(b, from, n) == Some(j),
    decreases a.len() - from,
{
    lemma_find_close_bounds(a, from, n);
    if tick_run(a.skip(from)) >= n {
        lemma_tick_run_reaches(a.skip(from), b.skip(from), n);
    } else {
        lemma_tick_run_bounds(a.skip(from));
        lemma_tick_run_agrees(a.skip(from), b.skip(from), j + n - from);
        lemma_find_close_agrees(a, b, from + 1, n, j);
    }
}

/// Escaped backticks pass through the sanitizer unchanged.
proof fn lemma_sanitize_escaped_ticks(n: nat, rest: Seq<char>)
    ensures
        sanitize_spec(escaped_ticks(n) + rest) == escaped_ticks(n) + sanitize_spec(rest),
    decreases n,
{
    if n == 0 {
        assert(escaped_ticks(0) + rest =~= rest);
        assert(escaped_ticks(0) + sanitize_spec(rest) =~= sanitize_spec(rest));
    } else {
        let tail = escaped_ticks((n - 1) as nat) + rest;
        let whole = escaped_ticks(n) + rest;
        assert(whole =~= seq!['\\', '`'] + tail);
        assert(whole.subrange(0, 2) =~= seq!['\\', '`']);
        assert(whole.skip(2) =~= tail);
        lemma_sanitize_escaped_ticks((n - 1) as nat, rest);
        assert(seq!['\\', '`'] + (escaped_ticks((n - 1) as nat) + sanitize_spec(rest))
            =~= escaped_ticks(n) + sanitize_spec(rest));
    }
}

/// Sanitizing twice gives what sanitizing once gives: the output of the
/// sanitizer is a fixed point of the sanitizer.
pub proof fn lemma_sanitize_idempotent(s: Seq<char>)
    ensures
        sanitize_spec(sanitize_spec(s)) == sanitize_spec(s),
    decreases s.len(),
{
    let o = sanitize_spec(s);
    if s.len() == 0 {
    } else if s[0] == '\\' {
        if s.len() >= 2 {
            let r = sanitize_spec(s.skip(2));
            lemma_sanitize_idempotent(s.skip(2));
            assert(o.subrange(0, 2) =~= s.subrange(0, 2));
            assert(o.skip(2) =~= r);
        }
    } else if s[0] == '`' {
        let n = tick_run(s) as int;
        lemma_tick_run_bounds(s);
        match find_close(s, n, n) {
            Some(j) => {
                lemma_find_close_bounds(s, n, n);
                let e = j + n;
                let r = sanitize_spec(s.skip(e));
                lemma_sanitize_idempotent(s.skip(e));
                assert(o == s.subrange(0, e) + r);
                lemma_tick_run_agrees(s, o, e);
                lemma_find_close_agrees(s, o, n, n, j);
                assert(o.subrange(0, e) =~= s.subrange(0, e));
                assert(o.skip(e) =~= r);
            },
            None => {
                lemma_sanitize_idempotent(s.skip(n));
                lemma_sanitize_escaped_ticks(n as nat, sanitize_spec(s.skip(n)));
            },
        }
    } else if s[0] == '#' && s.len() >= 2 && is_ascii_letter(s[1]) {
        let t = s.skip(1);
        let r = sanitize_spec(t);
        lemma_sanitize_idempotent(t);
        assert(r[0] == s[1]);
        assert(o.skip(1) =~= r);
    } else if is_markup_char(s[0]) {
        let r = sanitize_spec(s.skip(1));
        lemma_sanitize_idempotent(s.skip(1));
        assert(o.subrange(0, 2) =~= seq!['\\', s[0]]);
        assert(o.skip(2) =~= r);
    } else {
        let r = sanitize_spec(s.skip(1));
        lemma_sanitize_idempotent(s.skip(1));
        assert(o.skip(1) =~= r);
    }
}

/// `n` backticks.
pub open spec fn ticks(n: nat) -> Seq<char> {
    Seq::new(n, |k: int| '`')
}

/// Whether `s[j..j + n)` lies in `s` and holds nothing but backticks.
pub open spec fn all_ticks(s: Seq<char>, j: int, n: int) -> bool {
    0 <= j && j + n <= s.len() && forall|k: int| j <= k < j + n ==> s[k] == '`'
}

/// Whether `n` backticks stand in a row somewhere in `s`.
pub open spec fn has_tick_run(s: Seq<char>, n: int) -> bool {
    exists|j: int| all_ticks(s, j, n)
}

/// A text that starts with `n` backticks has a run of at least `n`.
proof fn lemma_ticks_in_front(s: Seq<char>, n: int)
    requires
        0 <= n <= s.len(),
        forall|k: int| 0 <= k < n ==> s[k] == '`',
    ensures
        tick_run(s) >= n,
    decreases n,
{
    if n > 0 {
        lemma_ticks_in_front(s.skip(1), n - 1);
    }
}

/// The closing run is the first place where `n` backticks stand in a row.
proof fn lemma_find_close_at(s: Seq<char>, from: int, n: int, target: int)
    requires
        0 <= from <= target,
        target + n <= s.len(),
        forall|f: int| from <= f < target ==> tick_run(#[trigger] s.skip(f)) < n,
        tick_run(s.skip(target)) >= n,
    ensures
        find_close(s, from, n) == Some(target),
    decreases target - from,
{
    if from < target {
        assert(tick_run(s.skip(from)) < n);
        lemma_find_close_at(s, from + 1, n, target);
    }
}

/// A raw region passes through the sanitizer untouched: between two runs
/// of `n` backticks, a text that neither starts nor ends with a backtick
/// and holds no `n` backticks in a row is kept as it is, delimiters
/// included, whatever it holds and whatever follows.
pub proof fn lemma_sanitize_keeps_raw(n: nat, content: Seq<char>, rest: Seq<char>)
    requires
        n >= 1,
        content.len() >= 1,
        content[0] != '`',
        content[content.len() - 1] != '`',
        !has_tick_run(content, n as int),
    ensures
        sanitize_spec(ticks(n) + content + ticks(n) + rest) == ticks(n) + content + ticks(n)
            + sanitize_spec(rest),
{
    let s = ticks(n) + content + ticks(n) + rest;
    let m = content.len() as int;
    let n = n as int;
    assert(s[0] == '`');
    assert(s[n] == content[0]);
    lemma_tick_run_bounds(s);
    lemma_ticks_in_front(s, n);
    assert(tick_run(s) == n) by {
        if tick_run(s) > n {
            assert(s[n] == '`');
        }
    }
    assert forall|f: int| n <= f < n + m implies tick_run(#[trigger] s.skip(f)) < n by {
        if tick_run(s.skip(f)) >= n {
            lemma_tick_run_bounds(s.skip(f));
            if f + n <= n + m {
                let j = f - n;
                assert forall|k: int| j <= k < j + n implies content[k] == '`' by {
                    assert(s.skip(f)[k - j] == '`');
                    assert(s.skip(f)[k - j] == s[k + n]);
                }
                assert(all_ticks(content, j, n));
                assert(has_tick_run(content, n));
            } else {
                let k = n + m - 1 - f;
                assert(s.skip(f)[k] == '`');
                assert(s.skip(f)[k] == content[m - 1]);
            }
        }
    }
    assert(tick_run(s.skip(n + m)) >= n) by {
        let tail = s.skip(n + m);
        assert forall|k: int| 0 <= k < n implies #[trigger] tail[k] == '`' by {
            assert(tail[k] == s[n + m + k]);
        }
        lemma_ticks_in_front(tail, n);
    }
    lemma_find_close_at(s, n, n, n + m);
    assert(s.subrange(0, n + m + n) =~= ticks(n as nat) + content + ticks(n as nat));
    assert(s.skip(n + m + n) =~= rest);
}

fn is_letter(c: char) -> (b: bool)
    ensures
        b == is_ascii_letter(c),
{
    (c >= 'a' && c <= 'z') || (c >= 'A' && c <= 'Z')
}

fn is_markup(c: char) -> (b: bool)
    ensures
        b == is_markup_char(c),
{
    c == '#' || c == '$' || c == '@' || c == '_' || c == '*'
}

/// Counts the backticks that start at `v[i]`.
fn count_ticks(v: &Vec<char>, i: usize) -> (n: usize)
    requires
        i <= v.len(),
    ensures
        n == tick_run(v@.skip(i as int)),
        i + n <= v.len(),
{
    let mut k: usize = i;
    while k < v.len() && v[k] == '`'
        invariant
            i <= k <= v.len(),
            tick_run(v@.skip(i as int)) == (k - i) + tick_run(v@.skip(k as int)),
        decreases v.len() - k,
    {
        assert(v@.skip(k as int).skip(1) =~= v@.skip(k + 1));
        k = k + 1;
    }
    k - i
}

/// Finds the run of `n` backticks that closes the raw region opened at
/// `v[i]`; the result is the index in `v` where that run starts.
fn find_close_from(v: &Vec<char>, i: usize, n: usize) -> (r: Option<usize>)
    requires
        0 < n,
        i + n <= v.len(),
    ensures
        match r {
            Some(j) => find_close(v@.skip(i as int), n as int, n as int) == Some(j - i) && i + n
                <= j && j + n <= v.len(),
            None => find_close(v@.skip(i as int), n as int, n as int) is None,
        },
{
    let ghost s = v@.skip(i as int);
    let mut j: usize = i + n;
    loop
        invariant
            0 < n,
            i + n <= j <= v.len(),
            s == v@.skip(i as int),
            find_close(s, n as int, n as int) == find_close(s, j - i, n as int),
        decreases v.len() - j,
    {
        if v.len() - j < n {
            return None;
        }
        let r = count_ticks(v, j);
        assert(s.skip(j - i) =~= v@.skip(j as int));
        if r >= n {
            return Some(j);
        }
        proof {
            lemma_find_close_skips_run(s, j - i, n as int);
        }
        j = j + r + 1;
    }
}

/// Appends `n` escaped backticks to `out`.
fn push_escaped_ticks(out: &mut Vec<char>, n: usize)
    ensures
        final(out)@ == old(out)@ + escaped_ticks(n as nat),
{
    let mut k: usize = n;
    let ghost start = out@;
    while k > 0
        invariant
            k <= n,
            start + escaped_ticks(n as nat) == out@ + escaped_ticks(k as nat),
        decreases k,
    {
        out.push('\\');
        out.push('`');
        k = k - 1;
    }
}

/// Sanitizes a text held as characters.
pub fn sanitize_chars(v: &Vec<char>) -> (out: Vec<char>)
    ensures
        out@ == sanitize_spec(v@),
{
    let mut out: Vec<char> = Vec::new();
    let len = v.len();
    let mut i: usize = 0;
    assert(v@.skip(0) =~= v@);
    while i < len
        invariant
            i <= len == v.len(),
            sanitize_spec(v@) == out@ + sanitize_spec(v@.skip(i as int)),
        decreases len - i,
    {
        let ghost s = v@.skip(i as int);
        let ghost before = out@;
        let c = v[i];
        assert(s[0] == c);
        if c == '\\' {
            if i + 1 < len {
                push_range(&mut out, v, i, i + 2);
                assert(s.subrange(0, 2) =~= v@.subrange(i as int, i + 2));
                assert(s.skip(2) =~= v@.skip(i + 2));
                i = i + 2;
            } else {
                out.push(c);
                assert(s =~= seq![c]);
                assert(v@.skip(i + 1) =~= Seq::<char>::empty());
                i = i + 1;
            }
        } else if c == '`' {
            let n = count_ticks(v, i);
            match find_close_from(v, i, n) {
                Some(j) => {
                    push_range(&mut out, v, i, j + n);
                    assert(s.subrange(0, (j - i) + n) =~= v@.subrange(i as int, j + n));
                    assert(s.skip((j - i) + n) =~= v@.skip(j + n));
                    i = j + n;
                },
                None => {
                    push_escaped_ticks(&mut out, n);
                    assert(s.skip(n as int) =~= v@.skip(i + n));
                    i = i + n;
                },
            }
        } else if c == '#' && i + 1 < len && is_letter(v[i + 1]) {
            out.push(c);
            assert(s[1] == v[i + 1]);
            assert(s.skip(1) =~= v@.skip(i + 1));
            i = i + 1;
        } else if is_markup(c) {
            out.push('\\');
            out.push(c);
            assert(s.skip(1) =~= v@.skip(i + 1));
            i = i + 1;
        } else {
            out.push(c);
            assert(s.skip(1) =~= v@.skip(i + 1));
            i = i + 1;
        }
    }
    assert(v@.skip(len as int) =~= Seq::<char>::empty());
    out
}

/// Escapes the characters of `typst_text` that Typst would read as markup.
///
/// Total: every text has a sanitized form. Raw regions, escapes that are
/// already there and `#` before a letter are kept as they are, and the
/// result is a fixed point (see [`lemma_sanitize_idempotent`]).
pub fn sanitize_text(typst_text: &str) -> (r: String)
    ensures
        r@ == sanitize_spec(typst_text@),
{
    let v = to_chars(typst_text);
    let out = sanitize_chars(&v);
    to_string(&out)
}

} // verus!
