//! Inline spans: the styled and literal runs of text inside a block, and the
//! parser that finds them.

use vstd::prelude::*;
use crate::text::{
    copy_range, copy_text, lemma_run_end, run_end, scan_run, to_chars, CharClass,
};

verus! {

/// A styled or literal run of text within a block.
#[derive(Debug, PartialEq, Eq)]
pub enum InlineSpan {
    /// Literal text.
    Text(Vec<char>),
    /// Emphasised spans.
    Emphasis(Vec<InlineSpan>),
    /// Strongly emphasised spans.
    Strong(Vec<InlineSpan>),
    /// Struck-through spans.
    Strike(Vec<InlineSpan>),
    /// Code, kept verbatim.
    InlineCode(Vec<char>),
    /// A reference to the footnote with this label.
    FootnoteRef(Vec<char>),
    /// A forced line break.
    LineBreak,
}

/// The mathematical value of an [`InlineSpan`].
pub enum SpanView {
    Text(Seq<char>),
    Emphasis(Seq<SpanView>),
    Strong(Seq<SpanView>),
    Strike(Seq<SpanView>),
    InlineCode(Seq<char>),
    FootnoteRef(Seq<char>),
    LineBreak,
}

impl View for InlineSpan {
    type V = SpanView;

    open spec fn view(&self) -> SpanView
        decreases self,
    {
        match self {
            InlineSpan::Text(s) => SpanView::Text(s@),
            InlineSpan::Emphasis(ch) => SpanView::Emphasis(spans_view(ch@)),
            InlineSpan::Strong(ch) => SpanView::Strong(spans_view(ch@)),
            InlineSpan::Strike(ch) => SpanView::Strike(spans_view(ch@)),
            InlineSpan::InlineCode(s) => SpanView::InlineCode(s@),
            InlineSpan::FootnoteRef(s) => SpanView::FootnoteRef(s@),
            InlineSpan::LineBreak => SpanView::LineBreak,
        }
    }
}

/// The values of a sequence of spans, one by one.
pub open spec fn spans_view(v: Seq<InlineSpan>) -> Seq<SpanView>
    decreases v,
{
    Seq::new(
        v.len(),
        |k: int|
            if 0 <= k < v.len() {
                v[k].view()
            } else {
                SpanView::LineBreak
            },
    )
}

/// The kinds of span the parser tells apart.
#[derive(Clone, Copy, Debug)]
pub enum SpanKind {
    Text,
    Code,
    Emphasis,
    Strong,
    Strike,
    Note,
    Break,
}

/// Where the span that starts at some position lies: its kind, the range
/// `lo..hi` of its content, and the position `next` behind it.
pub struct Shape {
    pub kind: SpanKind,
    pub lo: int,
    pub hi: int,
    pub next: int,
}

/// The length of the forced line break at `i`, or 0 if there is none. A
/// break is a backslash before a line feed, or two spaces before one.
pub open spec fn break_len(t: Seq<char>, i: int, hi: int) -> int {
    if i + 1 < hi && t[i] == '\\' && t[i + 1] == '\n' {
        2
    } else if i + 2 < hi && t[i] == ' ' && t[i + 1] == ' ' && t[i + 2] == '\n' {
        3
    } else {
        0
    }
}

/// Whether something other than plain text may start at `i`.
pub open spec fn opens_span(t: Seq<char>, i: int, hi: int) -> bool {
    t[i] == '`' || t[i] == '*' || t[i] == '_' || (i + 1 < hi && t[i] == '~' && t[i + 1] == '~')
        || (i + 1 < hi && t[i] == '[' && t[i + 1] == '^') || break_len(t, i, hi) > 0
}

/// The end of the plain text that starts at `i`.
pub open spec fn plain_end(t: Seq<char>, i: int, hi: int) -> int
    decreases hi - i,
{
    if 0 <= i < hi <= t.len() && !opens_span(t, i, hi) {
        plain_end(t, i + 1, hi)
    } else {
        i
    }
}

/// The start of the first run of `c` at or after `from` that is exactly `n`
/// long. `from` must not lie inside a run.
pub open spec fn find_run(t: Seq<char>, c: char, n: int, from: int, hi: int) -> Option<int>
    decreases hi - from,
{
    if from < 0 || from >= hi || hi > t.len() {
        None
    } else if t[from] == c {
        let e = run_end(t, CharClass::Is(c), from, hi);
        proof {
            lemma_run_end(t, CharClass::Is(c), from, hi);
        }
        if e - from == n {
            Some(from)
        } else {
            find_run(t, c, n, e, hi)
        }
    } else {
        find_run(t, c, n, from + 1, hi)
    }
}

/// The first position at or after `from` where `c` stands twice in a row.
pub open spec fn find_pair(t: Seq<char>, c: char, from: int, hi: int) -> Option<int>
    decreases hi - from,
{
    if from < 0 || from + 2 > hi || hi > t.len() {
        None
    } else if t[from] == c && t[from + 1] == c {
        Some(from)
    } else {
        find_pair(t, c, from + 1, hi)
    }
}

/// The span that starts at `i` in `t[..hi)`.
///
/// In order of precedence:
/// - a run of backticks opens a code span that closes at the next run of
///   the same length;
/// - `~~` opens a strike that closes at the next `~~`;
/// - `**` or `__` opens a strong span that closes at the next such pair;
/// - `*` or `_` opens an emphasis that closes at the next single such
///   character;
/// - `[^label]` is a footnote reference;
/// - a backslash or two spaces before a line feed are a forced break;
/// - anything else is plain text up to the next character that may open one
///   of the above.
///
/// An opening delimiter that is never closed is literal text.
pub open spec fn span_shape(t: Seq<char>, i: int, hi: int) -> Shape {
    let c = t[i];
    if c == '`' {
        let e = run_end(t, CharClass::Is('`'), i, hi);
        match find_run(t, '`', e - i, e, hi) {
            Some(j) => Shape { kind: SpanKind::Code, lo: e, hi: j, next: j + (e - i) },
            None => Shape { kind: SpanKind::Text, lo: i, hi: e, next: e },
        }
    } else if c == '~' && i + 1 < hi && t[i + 1] == '~' {
        match find_pair(t, '~', i + 3, hi) {
            Some(j) => Shape { kind: SpanKind::Strike, lo: i + 2, hi: j, next: j + 2 },
            None => Shape { kind: SpanKind::Text, lo: i, hi: i + 2, next: i + 2 },
        }
    } else if (c == '*' || c == '_') && i + 1 < hi && t[i + 1] == c {
        match find_pair(t, c, i + 3, hi) {
            Some(j) => Shape { kind: SpanKind::Strong, lo: i + 2, hi: j, next: j + 2 },
            None => Shape { kind: SpanKind::Text, lo: i, hi: i + 2, next: i + 2 },
        }
    } else if c == '*' || c == '_' {
        match find_run(t, c, 1, i + 1, hi) {
            Some(j) => Shape { kind: SpanKind::Emphasis, lo: i + 1, hi: j, next: j + 1 },
            None => Shape { kind: SpanKind::Text, lo: i, hi: i + 1, next: i + 1 },
        }
    } else if c == '[' && i + 1 < hi && t[i + 1] == '^' {
        let e = run_end(t, CharClass::Label, i + 2, hi);
        if i + 2 < e && e < hi && t[e] == ']' {
            Shape { kind: SpanKind::Note, lo: i + 2, hi: e, next: e + 1 }
        } else {
            Shape { kind: SpanKind::Text, lo: i, hi: i + 2, next: i + 2 }
        }
    } else if break_len(t, i, hi) > 0 {
        Shape { kind: SpanKind::Break, lo: i, hi: i, next: i + break_len(t, i, hi) }
    } else {
        let e = plain_end(t, i, hi);
        Shape { kind: SpanKind::Text, lo: i, hi: e, next: e }
    }
}

/// The spans of `t[i..hi)`.
pub open spec fn parse_spans(t: Seq<char>, i: int, hi: int) -> Seq<SpanView>
    decreases hi - i,
{
    if 0 <= i < hi <= t.len() {
        let sh = span_shape(t, i, hi);
        proof {
            lemma_shape_bounds(t, i, hi);
        }
        let head = match sh.kind {
            SpanKind::Text => SpanView::Text(t.subrange(sh.lo, sh.hi)),
            SpanKind::Code => SpanView::InlineCode(t.subrange(sh.lo, sh.hi)),
            SpanKind::Emphasis => SpanView::Emphasis(parse_spans(t, sh.lo, sh.hi)),
            SpanKind::Strong => SpanView::Strong(parse_spans(t, sh.lo, sh.hi)),
            SpanKind::Strike => SpanView::Strike(parse_spans(t, sh.lo, sh.hi)),
            SpanKind::Note => SpanView::FootnoteRef(t.subrange(sh.lo, sh.hi)),
            SpanKind::Break => SpanView::LineBreak,
        };
        seq![head] + parse_spans(t, sh.next, hi)
    } else {
        Seq::empty()
    }
}

/// The spans of a whole text.
pub open spec fn parse_inline_spec(t: Seq<char>) -> Seq<SpanView> {
    parse_spans(t, 0, t.len() as int)
}

/// A run that was found lies inside the window and is exactly `n` long.
pub proof fn lemma_find_run(t: Seq<char>, c: char, n: int, from: int, hi: int)
    ensures
        find_run(t, c, n, from, hi) matches Some(j) ==> from <= j && j + n <= hi && 0 < n
            && run_end(t, CharClass::Is(c), j, hi) == j + n,
    decreases hi - from,
{
    if from < 0 || from >= hi || hi > t.len() {
    } else if t[from] == c {
        let e = run_end(t, CharClass::Is(c), from, hi);
        lemma_run_end(t, CharClass::Is(c), from, hi);
        if e - from != n {
            lemma_find_run(t, c, n, e, hi);
        }
    } else {
        lemma_find_run(t, c, n, from + 1, hi);
    }
}

/// A pair that was found lies inside the window.
pub proof fn lemma_find_pair(t: Seq<char>, c: char, from: int, hi: int)
    ensures
        find_pair(t, c, from, hi) matches Some(j) ==> from <= j && j + 2 <= hi && t[j] == c
            && t[j + 1] == c,
    decreases hi - from,
{
    if from < 0 || from + 2 > hi || hi > t.len() {
    } else if t[from] == c && t[from + 1] == c {
    } else {
        lemma_find_pair(t, c, from + 1, hi);
    }
}

/// Plain text ends inside the window.
pub proof fn lemma_plain_end(t: Seq<char>, i: int, hi: int)
    requires
        0 <= i <= hi <= t.len(),
    ensures
        i <= plain_end(t, i, hi) <= hi,
        forall|k: int| i <= k < plain_end(t, i, hi) ==> !opens_span(t, k, hi),
        plain_end(t, i, hi) < hi ==> opens_span(t, plain_end(t, i, hi), hi),
    decreases hi - i,
{
    if i < hi && !opens_span(t, i, hi) {
        lemma_plain_end(t, i + 1, hi);
    }
}

/// Every span is at least one character long and lies inside the window;
/// the content of a span that holds other spans starts behind its opening
/// delimiter.
pub proof fn lemma_shape_bounds(t: Seq<char>, i: int, hi: int)
    requires
        0 <= i < hi <= t.len(),
    ensures
        ({
            let sh = span_shape(t, i, hi);
            &&& i < sh.next <= hi
            &&& i <= sh.lo <= sh.hi <= sh.next
            &&& (sh.kind is Emphasis || sh.kind is Strong || sh.kind is Strike) ==> i < sh.lo
        }),
{
    let c = t[i];
    if c == '`' {
        let e = run_end(t, CharClass::Is('`'), i, hi);
        lemma_run_end(t, CharClass::Is('`'), i, hi);
        lemma_find_run(t, '`', e - i, e, hi);
    } else if c == '~' && i + 1 < hi && t[i + 1] == '~' {
        lemma_find_pair(t, '~', i + 3, hi);
    } else if (c == '*' || c == '_') && i + 1 < hi && t[i + 1] == c {
        lemma_find_pair(t, c, i + 3, hi);
    } else if c == '*' || c == '_' {
        lemma_find_run(t, c, 1, i + 1, hi);
    } else if c == '[' && i + 1 < hi && t[i + 1] == '^' {
        lemma_run_end(t, CharClass::Label, i + 2, hi);
    } else if break_len(t, i, hi) > 0 {
    } else {
        lemma_plain_end(t, i, hi);
    }
}

fn break_len_at(v: &Vec<char>, i: usize, hi: usize) -> (n: usize)
    requires
        i < hi <= v.len(),
    ensures
        n == break_len(v@, i as int, hi as int),
{
    if hi - i > 1 && v[i] == '\\' && v[i + 1] == '\n' {
        2
    } else if hi - i > 2 && v[i] == ' ' && v[i + 1] == ' ' && v[i + 2] == '\n' {
        3
    } else {
        0
    }
}

fn opens_span_at(v: &Vec<char>, i: usize, hi: usize) -> (r: bool)
    requires
        i < hi <= v.len(),
    ensures
        r == opens_span(v@, i as int, hi as int),
{
    let c = v[i];
    c == '`' || c == '*' || c == '_' || (hi - i > 1 && c == '~' && v[i + 1] == '~') || (hi - i > 1
        && c == '[' && v[i + 1] == '^') || break_len_at(v, i, hi) > 0
}

fn scan_plain(v: &Vec<char>, i: usize, hi: usize) -> (r: usize)
    requires
        i <= hi <= v.len(),
    ensures
        r == plain_end(v@, i as int, hi as int),
        i <= r <= hi,
{
    let mut k: usize = i;
    while k < hi && !opens_span_at(v, k, hi)
        invariant
            i <= k <= hi <= v.len(),
            plain_end(v@, i as int, hi as int) == plain_end(v@, k as int, hi as int),
        decreases hi - k,
    {
        k = k + 1;
    }
    k
}

fn find_run_at(v: &Vec<char>, c: char, n: usize, from: usize, hi: usize) -> (r: Option<usize>)
    requires
        from <= hi <= v.len(),
    ensures
        match r {
            Some(j) => find_run(v@, c, n as int, from as int, hi as int) == Some(j as int) && from
                <= j && j + n <= hi,
            None => find_run(v@, c, n as int, from as int, hi as int) is None,
        },
{
    let mut j: usize = from;
    while j < hi
        invariant
            from <= j <= hi <= v.len(),
            find_run(v@, c, n as int, from as int, hi as int) == find_run(
                v@,
                c,
                n as int,
                j as int,
                hi as int,
            ),
        decreases hi - j,
    {
        if v[j] == c {
            let e = scan_run(v, CharClass::Is(c), j, hi);
            proof {
                lemma_run_end(v@, CharClass::Is(c), j as int, hi as int);
            }
            if e - j == n {
                return Some(j);
            }
            j = e;
        } else {
            j = j + 1;
        }
    }
    None
}

fn find_pair_at(v: &Vec<char>, c: char, from: usize, hi: usize) -> (r: Option<usize>)
    requires
        from <= hi <= v.len(),
    ensures
        match r {
            Some(j) => find_pair(v@, c, from as int, hi as int) == Some(j as int) && from <= j
                && j + 2 <= hi,
            None => find_pair(v@, c, from as int, hi as int) is None,
        },
{
    let mut j: usize = from;
    while hi - j >= 2
        invariant
            from <= j <= hi <= v.len(),
            find_pair(v@, c, from as int, hi as int) == find_pair(v@, c, j as int, hi as int),
        decreases hi - j,
    {
        if v[j] == c && v[j + 1] == c {
            return Some(j);
        }
        j = j + 1;
    }
    None
}

/// Closes a doubled delimiter opened at `i`.
fn close_pair(v: &Vec<char>, c: char, kind: SpanKind, i: usize, hi: usize) -> (r: (
    SpanKind,
    usize,
    usize,
    usize,
))
    requires
        i < hi <= v.len(),
        hi - i >= 2,
    ensures
        match find_pair(v@, c, i + 3, hi as int) {
            Some(j) => r == (kind, (i + 2) as usize, j as usize, (j + 2) as usize),
            None => r.0 is Text && r.1 == i && r.2 == i + 2 && r.3 == i + 2,
        },
        r.3 <= hi,
        r.1 <= r.2,
{
    if hi - i >= 3 {
        match find_pair_at(v, c, i + 3, hi) {
            Some(j) => (kind, i + 2, j, j + 2),
            None => (SpanKind::Text, i, i + 2, i + 2),
        }
    } else {
        (SpanKind::Text, i, i + 2, i + 2)
    }
}

/// Finds the span that starts at `v[i]`.
fn shape_at(v: &Vec<char>, i: usize, hi: usize) -> (r: (SpanKind, usize, usize, usize))
    requires
        i < hi <= v.len(),
    ensures
        span_shape(v@, i as int, hi as int) == (Shape {
            kind: r.0,
            lo: r.1 as int,
            hi: r.2 as int,
            next: r.3 as int,
        }),
        i < r.3 <= hi,
        i <= r.1 <= r.2 <= r.3,
        (r.0 is Emphasis || r.0 is Strong || r.0 is Strike) ==> i < r.1,
{
    proof {
        lemma_shape_bounds(v@, i as int, hi as int);
    }
    let c = v[i];
    if c == '`' {
        let e = scan_run(v, CharClass::Is('`'), i, hi);
        match find_run_at(v, '`', e - i, e, hi) {
            Some(j) => (SpanKind::Code, e, j, j + (e - i)),
            None => (SpanKind::Text, i, e, e),
        }
    } else if c == '~' && hi - i > 1 && v[i + 1] == '~' {
        close_pair(v, '~', SpanKind::Strike, i, hi)
    } else if (c == '*' || c == '_') && hi - i > 1 && v[i + 1] == c {
        close_pair(v, c, SpanKind::Strong, i, hi)
    } else if c == '*' || c == '_' {
        match find_run_at(v, c, 1, i + 1, hi) {
            Some(j) => (SpanKind::Emphasis, i + 1, j, j + 1),
            None => (SpanKind::Text, i, i + 1, i + 1),
        }
    } else if c == '[' && hi - i > 1 && v[i + 1] == '^' {
        let e = scan_run(v, CharClass::Label, i + 2, hi);
        if i + 2 < e && e < hi && v[e] == ']' {
            (SpanKind::Note, i + 2, e, e + 1)
        } else {
            (SpanKind::Text, i, i + 2, i + 2)
        }
    } else {
        let n = break_len_at(v, i, hi);
        if n > 0 {
            (SpanKind::Break, i, i, i + n)
        } else {
            let e = scan_plain(v, i, hi);
            (SpanKind::Text, i, e, e)
        }
    }
}

/// Parses the spans of `v[lo..hi)`.
pub fn parse_range(v: &Vec<char>, lo: usize, hi: usize) -> (out: Vec<InlineSpan>)
    requires
        lo <= hi <= v.len(),
    ensures
        spans_view(out@) == parse_spans(v@, lo as int, hi as int),
    decreases hi - lo,
{
    let mut out: Vec<InlineSpan> = Vec::new();
    let mut i: usize = lo;
    while i < hi
        invariant
            lo <= i <= hi <= v.len(),
            parse_spans(v@, lo as int, hi as int) == spans_view(out@) + parse_spans(
                v@,
                i as int,
                hi as int,
            ),
        decreases hi - i,
    {
        let (kind, a, b, next) = shape_at(v, i, hi);
        let span = match kind {
            SpanKind::Text => InlineSpan::Text(copy_range(v, a, b)),
            SpanKind::Code => InlineSpan::InlineCode(copy_range(v, a, b)),
            SpanKind::Emphasis => InlineSpan::Emphasis(parse_range(v, a, b)),
            SpanKind::Strong => InlineSpan::Strong(parse_range(v, a, b)),
            SpanKind::Strike => InlineSpan::Strike(parse_range(v, a, b)),
            SpanKind::Note => InlineSpan::FootnoteRef(copy_range(v, a, b)),
            SpanKind::Break => InlineSpan::LineBreak,
        };
        let ghost before = out@;
        out.push(span);
        assert(spans_view(out@) =~= spans_view(before).push(span@));
        i = next;
    }
    out
}

/// Parses the inline spans of `text`: code, strike, strong, emphasis,
/// footnote references and forced breaks, with everything else as literal
/// text. Never fails: a delimiter that is not closed stays in the text.
pub fn parse_inline(text: &str) -> (out: Vec<InlineSpan>)
    ensures
        spans_view(out@) == parse_inline_spec(text@),
{
    let v = to_chars(text);
    parse_range(&v, 0, v.len())
}

/// Copies a span.
pub fn copy_span(sp: &InlineSpan) -> (r: InlineSpan)
    ensures
        r@ == sp@,
    decreases sp,
{
    match sp {
        InlineSpan::Text(s) => InlineSpan::Text(copy_text(s)),
        InlineSpan::Emphasis(ch) => InlineSpan::Emphasis(copy_spans(ch)),
        InlineSpan::Strong(ch) => InlineSpan::Strong(copy_spans(ch)),
        InlineSpan::Strike(ch) => InlineSpan::Strike(copy_spans(ch)),
        InlineSpan::InlineCode(s) => InlineSpan::InlineCode(copy_text(s)),
        InlineSpan::FootnoteRef(s) => InlineSpan::FootnoteRef(copy_text(s)),
        InlineSpan::LineBreak => InlineSpan::LineBreak,
    }
}

/// Copies a sequence of spans.
pub fn copy_spans(v: &Vec<InlineSpan>) -> (r: Vec<InlineSpan>)
    ensures
        spans_view(r@) == spans_view(v@),
    decreases v,
{
    let mut out: Vec<InlineSpan> = Vec::new();
    let mut k: usize = 0;
    while k < v.len()
        invariant
            k <= v.len(),
            out.len() == k,
            forall|j: int| 0 <= j < k ==> (#[trigger] out@[j])@ == v@[j]@,
        decreases v.len() - k,
    {
        let c = copy_span(&v[k]);
        out.push(c);
        k = k + 1;
    }
    assert(spans_view(out@) =~= spans_view(v@));
    out
}

} // verus!
