//! The block scanner: splits a text into its blocks, line by line.

use vstd::prelude::*;
use crate::inline::{parse_range, parse_spans};
use crate::list::{build_list, lemma_list_at, list_at, list_marker, marker_at};
use crate::model::{views, Block, BlockView};
use crate::table::{
    build_table, lemma_rows_stop, lemma_table_wf, starts_table, table_at, table_starts,
    table_stop,
};
use crate::text::{
    blank_line, copy_range, find_line_end, is_blank_line, lemma_next_line, line_end, next_line,
    push_range, run_end, scan_run, step_line, trim, trim_hi, trim_lo, CharClass,
};

verus! {

/// The level of the heading on the line `t[p..e)`: the number of `#` at its
/// start, if there are one to six of them and a space follows; 0 otherwise.
pub open spec fn heading_level(t: Seq<char>, p: int, e: int) -> int {
    let k = run_end(t, CharClass::Is('#'), p, e) - p;
    if 1 <= k <= 6 && p + k < e && t[p + k] == ' ' {
        k
    } else {
        0
    }
}

/// Whether the line `t[p..e)` starts with a code fence.
pub open spec fn is_fence_open(t: Seq<char>, p: int, e: int) -> bool {
    p + 3 <= e && t[p] == '`' && t[p + 1] == '`' && t[p + 2] == '`'
}

/// Whether the line `t[p..e)` is a code fence and nothing else.
pub open spec fn is_fence_close(t: Seq<char>, p: int, e: int) -> bool {
    is_fence_open(t, p, e) && run_end(t, CharClass::Blank, p + 3, e) == e
}

/// The start of the first closing fence line at or after the line at `q`,
/// or the end of the text.
pub open spec fn fence_stop(t: Seq<char>, q: int) -> int
    decreases t.len() - q,
{
    if 0 <= q < t.len() && !is_fence_close(t, q, line_end(t, q)) {
        proof {
            lemma_next_line(t, q);
        }
        fence_stop(t, next_line(t, line_end(t, q)))
    } else {
        q
    }
}

/// Whether the line `t[p..e)` is part of a block quote.
pub open spec fn is_quote(t: Seq<char>, p: int, e: int) -> bool {
    p < e && t[p] == '>'
}

/// Where the text of a quote line starts: behind the `>` and at most one
/// space.
pub open spec fn quote_lo(t: Seq<char>, p: int, e: int) -> int {
    if p + 1 < e && t[p + 1] == ' ' {
        p + 2
    } else {
        p + 1
    }
}

/// The text of the quote lines from the line at `q` on, joined by single
/// spaces.
pub open spec fn quote_text(t: Seq<char>, q: int, first: bool) -> Seq<char>
    decreases t.len() - q,
{
    if 0 <= q < t.len() && is_quote(t, q, line_end(t, q)) {
        let e = line_end(t, q);
        proof {
            lemma_next_line(t, q);
        }
        (if first {
            Seq::empty()
        } else {
            seq![' ']
        }) + t.subrange(quote_lo(t, q, e), e) + quote_text(t, next_line(t, e), false)
    } else {
        Seq::empty()
    }
}

/// The start of the first line at or after `q` that is no quote line.
pub open spec fn quote_stop(t: Seq<char>, q: int) -> int
    decreases t.len() - q,
{
    if 0 <= q < t.len() && is_quote(t, q, line_end(t, q)) {
        proof {
            lemma_next_line(t, q);
        }
        quote_stop(t, next_line(t, line_end(t, q)))
    } else {
        q
    }
}

/// The end of the label, if the line `t[p..e)` defines a footnote: it
/// starts with `[^`, a label, `]` and `:`.
pub open spec fn note_def(t: Seq<char>, p: int, e: int) -> Option<int> {
    let d = run_end(t, CharClass::Label, p + 2, e);
    if p + 2 <= e && t[p] == '[' && t[p + 1] == '^' && p + 2 < d && d + 1 < e && t[d] == ']'
        && t[d + 1] == ':' {
        Some(d)
    } else {
        None
    }
}

/// Whether the line `t[p..e)` is a thematic break: three or more of one of
/// `-`, `*` and `_`, and nothing else but blanks around them.
pub open spec fn is_rule(t: Seq<char>, p: int, e: int) -> bool {
    let a = trim_lo(t, p, e);
    let b = trim_hi(t, p, e);
    b - a >= 3 && (t[a] == '-' || t[a] == '*' || t[a] == '_') && run_end(
        t,
        CharClass::Is(t[a]),
        a,
        b,
    ) == b
}

/// Whether the line `t[p..e)` starts a block other than a paragraph.
pub open spec fn starts_block(t: Seq<char>, p: int, e: int) -> bool {
    heading_level(t, p, e) > 0 || is_fence_open(t, p, e) || is_quote(t, p, e) || note_def(t, p, e)
        is Some || starts_table(t, p, e) || list_marker(t, p, e).found || is_rule(t, p, e)
}

/// The end of the last line of the paragraph whose current line ends at
/// `e`: a paragraph runs on until a blank line, a line that starts another
/// block, or the end of the text.
pub open spec fn para_end(t: Seq<char>, e: int) -> int
    decreases t.len() - e,
{
    let q = next_line(t, e);
    if 0 <= e < t.len() && !is_blank_line(t, q, line_end(t, q)) && !starts_block(
        t,
        q,
        line_end(t, q),
    ) {
        proof {
            lemma_next_line(t, q);
        }
        para_end(t, line_end(t, q))
    } else {
        e
    }
}

/// One step of the scanner: a block, the start of the first line behind
/// it, and the indentation unit of lists after it.
pub struct BlockStep {
    pub block: BlockView,
    pub next: int,
    pub unit: int,
}

/// The block that starts with the line at `p`, which is not blank. The
/// first rule that fits decides:
/// 1. one to six `#` and a space: a heading, of this one line;
/// 2. a code fence: a code block, up to the closing fence or the end of the
///    text, verbatim;
/// 3. `>`: a block quote, with all quote lines that follow;
/// 4. `[^label]:`: the definition of a footnote;
/// 5. a line with a cell separator before a delimiter row: a table;
/// 6. a list marker: a list;
/// 7. three or more of `-`, `*` or `_` alone: a thematic break;
/// 8. anything else: a paragraph.
pub open spec fn block_at(t: Seq<char>, p: int, unit: int) -> BlockStep {
    let e = line_end(t, p);
    let level = heading_level(t, p, e);
    if level > 0 {
        BlockStep {
            block: BlockView::Heading {
                level: level as nat,
                content: parse_spans(t, trim_lo(t, p + level + 1, e), trim_hi(t, p + level + 1, e)),
            },
            next: next_line(t, e),
            unit: unit,
        }
    } else if is_fence_open(t, p, e) {
        let b = next_line(t, e);
        let q = fence_stop(t, b);
        BlockStep {
            block: BlockView::CodeBlock {
                lang: if p + 3 < e {
                    Some(t.subrange(p + 3, e))
                } else {
                    None
                },
                raw: t.subrange(b, q),
            },
            next: if q < t.len() {
                next_line(t, line_end(t, q))
            } else {
                q
            },
            unit: unit,
        }
    } else if is_quote(t, p, e) {
        let s = quote_text(t, p, true);
        BlockStep {
            block: BlockView::BlockQuote(parse_spans(s, 0, s.len() as int)),
            next: quote_stop(t, p),
            unit: unit,
        }
    } else if note_def(t, p, e) is Some {
        let d = note_def(t, p, e)->0;
        BlockStep {
            block: BlockView::FootnoteDefinition {
                id: t.subrange(p + 2, d),
                content: parse_spans(t, trim_lo(t, d + 2, e), trim_hi(t, d + 2, e)),
            },
            next: next_line(t, e),
            unit: unit,
        }
    } else if starts_table(t, p, e) {
        BlockStep {
            block: BlockView::Table(table_at(t, p, e)),
            next: table_stop(t, e),
            unit: unit,
        }
    } else if list_marker(t, p, e).found {
        let run = list_at(t, p, unit);
        BlockStep {
            block: BlockView::List { ordered: list_marker(t, p, e).ordered, items: run.items },
            next: run.stop,
            unit: run.unit,
        }
    } else if is_rule(t, p, e) {
        BlockStep { block: BlockView::ThematicBreak, next: next_line(t, e), unit: unit }
    } else {
        let last = para_end(t, e);
        BlockStep {
            block: BlockView::Paragraph(parse_spans(t, p, last)),
            next: next_line(t, last),
            unit: unit,
        }
    }
}

/// The blocks of `t` from the line at `p` on. Blank lines separate blocks
/// and are no blocks themselves.
pub open spec fn scan_from(t: Seq<char>, p: int, unit: int) -> Seq<BlockView>
    decreases t.len() - p,
{
    if 0 <= p < t.len() && 0 <= unit {
        let e = line_end(t, p);
        proof {
            lemma_next_line(t, p);
        }
        if is_blank_line(t, p, e) {
            scan_from(t, next_line(t, e), unit)
        } else {
            let st = block_at(t, p, unit);
            proof {
                lemma_block_at(t, p, unit);
            }
            seq![st.block] + scan_from(t, st.next, st.unit)
        }
    } else {
        Seq::empty()
    }
}

/// The blocks of a whole text.
pub open spec fn scan_spec(t: Seq<char>) -> Seq<BlockView> {
    scan_from(t, 0, 0)
}

/// The search for a closing fence ends inside the text.
pub proof fn lemma_fence_stop(t: Seq<char>, q: int)
    requires
        0 <= q <= t.len(),
    ensures
        q <= fence_stop(t, q) <= t.len(),
    decreases t.len() - q,
{
    if q < t.len() && !is_fence_close(t, q, line_end(t, q)) {
        lemma_next_line(t, q);
        lemma_fence_stop(t, next_line(t, line_end(t, q)));
    }
}

/// A block quote ends inside the text, behind its first line.
pub proof fn lemma_quote_stop(t: Seq<char>, q: int)
    requires
        0 <= q <= t.len(),
    ensures
        q <= quote_stop(t, q) <= t.len(),
        q < t.len() && is_quote(t, q, line_end(t, q)) ==> q < quote_stop(t, q),
    decreases t.len() - q,
{
    if q < t.len() && is_quote(t, q, line_end(t, q)) {
        lemma_next_line(t, q);
        lemma_quote_stop(t, next_line(t, line_end(t, q)));
    }
}

/// A paragraph ends inside the text, at or behind the end of its first line.
pub proof fn lemma_para_end(t: Seq<char>, e: int)
    requires
        0 <= e <= t.len(),
    ensures
        e <= para_end(t, e) <= t.len(),
    decreases t.len() - e,
{
    let q = next_line(t, e);
    if e < t.len() && !is_blank_line(t, q, line_end(t, q)) && !starts_block(t, q, line_end(t, q)) {
        lemma_next_line(t, q);
        lemma_para_end(t, line_end(t, q));
    }
}

/// Every step of the scanner moves forward, stays inside the text, and
/// gives a well-formed block.
pub proof fn lemma_block_at(t: Seq<char>, p: int, unit: int)
    requires
        0 <= p < t.len(),
        0 <= unit,
    ensures
        p < block_at(t, p, unit).next <= t.len(),
        0 <= block_at(t, p, unit).unit,
        block_at(t, p, unit).block.wf(),
{
    let e = line_end(t, p);
    lemma_next_line(t, p);
    let level = heading_level(t, p, e);
    if level > 0 {
    } else if is_fence_open(t, p, e) {
        let b = next_line(t, e);
        let q = fence_stop(t, b);
        lemma_fence_stop(t, b);
        if q < t.len() {
            lemma_next_line(t, q);
        }
    } else if is_quote(t, p, e) {
        lemma_quote_stop(t, p);
    } else if note_def(t, p, e) is Some {
    } else if starts_table(t, p, e) {
        lemma_next_line(t, e + 1);
        lemma_rows_stop(t, next_line(t, line_end(t, e + 1)));
        lemma_table_wf(t, p, e);
    } else if list_marker(t, p, e).found {
        lemma_list_at(t, p, unit);
    } else if is_rule(t, p, e) {
    } else {
        lemma_para_end(t, e);
    }
}

fn heading_level_at(v: &Vec<char>, p: usize, e: usize) -> (k: usize)
    requires
        p <= e <= v.len(),
    ensures
        k == heading_level(v@, p as int, e as int),
        k <= 6,
{
    let r = scan_run(v, CharClass::Is('#'), p, e);
    let k = r - p;
    if 1 <= k && k <= 6 && r < e && v[r] == ' ' {
        k
    } else {
        0
    }
}

fn fence_open_at(v: &Vec<char>, p: usize, e: usize) -> (r: bool)
    requires
        p <= e <= v.len(),
    ensures
        r == is_fence_open(v@, p as int, e as int),
{
    e - p >= 3 && v[p] == '`' && v[p + 1] == '`' && v[p + 2] == '`'
}

fn fence_close_at(v: &Vec<char>, p: usize, e: usize) -> (r: bool)
    requires
        p <= e <= v.len(),
    ensures
        r == is_fence_close(v@, p as int, e as int),
{
    fence_open_at(v, p, e) && scan_run(v, CharClass::Blank, p + 3, e) == e
}

fn find_fence_stop(v: &Vec<char>, q: usize) -> (r: usize)
    requires
        q <= v.len(),
    ensures
        r == fence_stop(v@, q as int),
        q <= r <= v.len(),
{
    let mut cur: usize = q;
    loop
        invariant
            q <= cur <= v.len(),
            fence_stop(v@, q as int) == fence_stop(v@, cur as int),
        ensures
            fence_stop(v@, cur as int) == cur,
        decreases v.len() - cur,
    {
        if cur >= v.len() {
            break ;
        }
        let e = find_line_end(v, cur);
        if fence_close_at(v, cur, e) {
            break ;
        }
        proof {
            lemma_next_line(v@, cur as int);
        }
        cur = step_line(v, e);
    }
    cur
}

fn quote_at(v: &Vec<char>, p: usize, e: usize) -> (r: bool)
    requires
        p <= e <= v.len(),
    ensures
        r == is_quote(v@, p as int, e as int),
{
    p < e && v[p] == '>'
}

fn gather_quote(v: &Vec<char>, p: usize) -> (r: (Vec<char>, usize))
    requires
        p <= v.len(),
    ensures
        r.0@ == quote_text(v@, p as int, true),
        r.1 == quote_stop(v@, p as int),
        p <= r.1 <= v.len(),
{
    let mut out: Vec<char> = Vec::new();
    let mut cur: usize = p;
    let mut first = true;
    loop
        invariant
            p <= cur <= v.len(),
            quote_text(v@, p as int, true) == out@ + quote_text(v@, cur as int, first),
            quote_stop(v@, p as int) == quote_stop(v@, cur as int),
        ensures
            quote_text(v@, cur as int, first) == Seq::<char>::empty(),
            quote_stop(v@, cur as int) == cur,
        decreases v.len() - cur,
    {
        if cur >= v.len() {
            break ;
        }
        let e = find_line_end(v, cur);
        if !quote_at(v, cur, e) {
            break ;
        }
        if !first {
            out.push(' ');
        }
        let lo = if e - cur > 1 && v[cur + 1] == ' ' {
            cur + 2
        } else {
            cur + 1
        };
        push_range(&mut out, v, lo, e);
        proof {
            lemma_next_line(v@, cur as int);
        }
        first = false;
        cur = step_line(v, e);
    }
    (out, cur)
}

fn note_def_at(v: &Vec<char>, p: usize, e: usize) -> (r: Option<usize>)
    requires
        p <= e <= v.len(),
    ensures
        match r {
            Some(d) => note_def(v@, p as int, e as int) == Some(d as int) && p + 2 < d && d + 2
                <= e,
            None => note_def(v@, p as int, e as int) is None,
        },
{
    if e - p >= 2 && v[p] == '[' && v[p + 1] == '^' {
        let d = scan_run(v, CharClass::Label, p + 2, e);
        if p + 2 < d && e - d > 1 && v[d] == ']' && v[d + 1] == ':' {
            Some(d)
        } else {
            None
        }
    } else {
        None
    }
}

fn rule_at(v: &Vec<char>, p: usize, e: usize) -> (r: bool)
    requires
        p <= e <= v.len(),
    ensures
        r == is_rule(v@, p as int, e as int),
{
    let (a, b) = trim(v, p, e);
    if b - a >= 3 && (v[a] == '-' || v[a] == '*' || v[a] == '_') {
        scan_run(v, CharClass::Is(v[a]), a, b) == b
    } else {
        false
    }
}

fn starts_block_at(v: &Vec<char>, p: usize, e: usize) -> (r: bool)
    requires
        p <= e <= v.len(),
    ensures
        r == starts_block(v@, p as int, e as int),
{
    heading_level_at(v, p, e) > 0 || fence_open_at(v, p, e) || quote_at(v, p, e) || note_def_at(
        v,
        p,
        e,
    ).is_some() || table_starts(v, p, e) || marker_at(v, p, e).found || rule_at(v, p, e)
}

fn find_para_end(v: &Vec<char>, e: usize) -> (r: usize)
    requires
        e <= v.len(),
    ensures
        r == para_end(v@, e as int),
        e <= r <= v.len(),
{
    let mut cur: usize = e;
    loop
        invariant
            e <= cur <= v.len(),
            para_end(v@, e as int) == para_end(v@, cur as int),
        ensures
            para_end(v@, cur as int) == cur,
        decreases v.len() - cur,
    {
        if cur >= v.len() {
            break ;
        }
        let q = cur + 1;
        let eq = find_line_end(v, q);
        if blank_line(v, q, eq) || starts_block_at(v, q, eq) {
            break ;
        }
        cur = eq;
    }
    cur
}

/// Builds the block that starts with the line at `p`, which is not blank.
fn block_at_pos(v: &Vec<char>, p: usize, unit: usize) -> (r: (Block, usize, usize))
    requires
        p < v.len(),
    ensures
        r.0@ == block_at(v@, p as int, unit as int).block,
        r.1 == block_at(v@, p as int, unit as int).next,
        r.2 == block_at(v@, p as int, unit as int).unit,
        p < r.1 <= v.len(),
        r.0@.wf(),
{
    proof {
        lemma_block_at(v@, p as int, unit as int);
    }
    let e = find_line_end(v, p);
    let level = heading_level_at(v, p, e);
    if level > 0 {
        let (x, y) = trim(v, p + level + 1, e);
        return (
            Block::Heading { level: level as u8, content: parse_range(v, x, y) },
            step_line(v, e),
            unit,
        );
    }
    if fence_open_at(v, p, e) {
        let b = step_line(v, e);
        let q = find_fence_stop(v, b);
        let lang = if e - p > 3 {
            Some(copy_range(v, p + 3, e))
        } else {
            None
        };
        let next = if q < v.len() {
            let eq = find_line_end(v, q);
            step_line(v, eq)
        } else {
            q
        };
        return (Block::CodeBlock { lang: lang, raw: copy_range(v, b, q) }, next, unit);
    }
    if quote_at(v, p, e) {
        let (text, stop) = gather_quote(v, p);
        let content = parse_range(&text, 0, text.len());
        return (Block::BlockQuote(content), stop, unit);
    }
    match note_def_at(v, p, e) {
        Some(d) => {
            let (x, y) = trim(v, d + 2, e);
            return (
                Block::FootnoteDefinition {
                    id: copy_range(v, p + 2, d),
                    content: parse_range(v, x, y),
                },
                step_line(v, e),
                unit,
            );
        },
        None => {},
    }
    match build_table(v, p, e) {
        Some((table, next)) => {
            return (Block::Table(table), next, unit);
        },
        None => {},
    }
    if marker_at(v, p, e).found {
        let (items, ordered, stop, unit2) = build_list(v, p, unit);
        return (Block::List { ordered: ordered, items: items }, stop, unit2);
    }
    if rule_at(v, p, e) {
        return (Block::ThematicBreak, step_line(v, e), unit);
    }
    let last = find_para_end(v, e);
    (Block::Paragraph(parse_range(v, p, last)), step_line(v, last), unit)
}

/// Splits a text into its blocks.
///
/// Every line belongs to exactly one block or is a blank separator; no
/// text makes the scanner fail. The blocks that come out are well-formed.
pub fn scan_blocks(v: &Vec<char>) -> (out: Vec<Block>)
    ensures
        views(out@) == scan_spec(v@),
        forall|k: int| 0 <= k < out@.len() ==> (#[trigger] out@[k])@.wf(),
{
    let mut out: Vec<Block> = Vec::new();
    let mut p: usize = 0;
    let mut unit: usize = 0;
    while p < v.len()
        invariant
            p <= v.len(),
            scan_spec(v@) == views(out@) + scan_from(v@, p as int, unit as int),
            forall|k: int| 0 <= k < out@.len() ==> (#[trigger] out@[k])@.wf(),
        decreases v.len() - p,
    {
        let e = find_line_end(v, p);
        proof {
            lemma_next_line(v@, p as int);
        }
        if blank_line(v, p, e) {
            p = step_line(v, e);
        } else {
            let (block, next, unit2) = block_at_pos(v, p, unit);
            let ghost before = out@;
            let ghost bv = block@;
            out.push(block);
            assert(views(out@) =~= views(before).push(bv));
            p = next;
            unit = unit2;
        }
    }
    out
}

} // verus!
