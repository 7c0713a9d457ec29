//! The table builder: cells, alignments and rows from the lines of a table.

use vstd::prelude::*;
use crate::inline::{parse_range, parse_spans, spans_view, InlineSpan, SpanView};
use crate::model::{cells_view, rows_view, Alignment, Table, TableView};
use crate::text::{
    find_line_end, lemma_next_line, lemma_run_end, lemma_run_start, line_end, next_line, run_end,
    run_start, scan_run, scan_run_back, step_line, trim, trim_hi, trim_lo, CharClass,
};

verus! {

/// Whether the line `t[p..e)` holds a cell separator: a `|` or a tab.
pub open spec fn has_sep(t: Seq<char>, p: int, e: int) -> bool {
    run_end(t, CharClass::Cell, p, e) < e
}

/// Where the cells of the row `t[p..e)` start: behind the leading spaces
/// and one leading `|`.
pub open spec fn row_lo(t: Seq<char>, p: int, e: int) -> int {
    let a = run_end(t, CharClass::Is(' '), p, e);
    if a < e && t[a] == '|' {
        a + 1
    } else {
        a
    }
}

/// Where the cells of the row `t[p..e)` end: before the trailing spaces and
/// one trailing `|`.
pub open spec fn row_hi(t: Seq<char>, p: int, e: int) -> int {
    let a = row_lo(t, p, e);
    let b = run_start(t, CharClass::Is(' '), a, e);
    if a < b && t[b - 1] == '|' {
        b - 1
    } else {
        b
    }
}

/// The alignment that a cell of the delimiter row stands for, if it is one:
/// dashes, with an optional colon on either side.
pub open spec fn cell_align(t: Seq<char>, a: int, e: int) -> Option<Alignment> {
    let x = trim_lo(t, a, e);
    let y = trim_hi(t, a, e);
    let left = x < y && t[x] == ':';
    let x2 = if left {
        x + 1
    } else {
        x
    };
    let right = x2 < y && t[y - 1] == ':';
    let y2 = if right {
        y - 1
    } else {
        y
    };
    if x2 < y2 && run_end(t, CharClass::Is('-'), x2, y2) == y2 {
        Some(
            if left && right {
                Alignment::Center
            } else if left {
                Alignment::Left
            } else if right {
                Alignment::Right
            } else {
                Alignment::Unset
            },
        )
    } else {
        None
    }
}

/// The alignments of the cells from `a` on, if each of them is one. A start
/// behind `b` means that no cell is left.
pub open spec fn aligns_from(t: Seq<char>, a: int, b: int) -> Option<Seq<Alignment>>
    decreases b - a + 1,
{
    if 0 <= a <= b <= t.len() {
        let e = run_end(t, CharClass::Cell, a, b);
        proof {
            lemma_run_end(t, CharClass::Cell, a, b);
        }
        match cell_align(t, a, e) {
            None => None,
            Some(al) => match aligns_from(t, e + 1, b) {
                None => None,
                Some(rest) => Some(seq![al] + rest),
            },
        }
    } else {
        Some(Seq::empty())
    }
}

/// The alignments that the line `t[p..e)` gives, if it is a delimiter row.
pub open spec fn align_row(t: Seq<char>, p: int, e: int) -> Option<Seq<Alignment>> {
    aligns_from(t, row_lo(t, p, e), row_hi(t, p, e))
}

/// `k` cells from `a` on, each parsed on its own; cells that the row lacks
/// are empty, and cells beyond `k` are dropped.
pub open spec fn cells_from(t: Seq<char>, a: int, b: int, k: nat) -> Seq<Seq<SpanView>>
    decreases k,
{
    if k == 0 {
        Seq::empty()
    } else if 0 <= a <= b <= t.len() {
        let e = run_end(t, CharClass::Cell, a, b);
        seq![parse_spans(t, trim_lo(t, a, e), trim_hi(t, a, e))] + cells_from(
            t,
            e + 1,
            b,
            (k - 1) as nat,
        )
    } else {
        seq![Seq::empty()] + cells_from(t, a, b, (k - 1) as nat)
    }
}

/// The `k` cells of the row `t[p..e)`.
pub open spec fn row_cells(t: Seq<char>, p: int, e: int, k: nat) -> Seq<Seq<SpanView>> {
    cells_from(t, row_lo(t, p, e), row_hi(t, p, e), k)
}

/// The body rows from the line at `q` on: every line that holds a separator,
/// up to the first that does not.
pub open spec fn rows_from(t: Seq<char>, q: int, k: nat) -> Seq<Seq<Seq<SpanView>>>
    decreases t.len() - q,
{
    if 0 <= q < t.len() && has_sep(t, q, line_end(t, q)) {
        proof {
            lemma_next_line(t, q);
        }
        seq![row_cells(t, q, line_end(t, q), k)] + rows_from(
            t,
            next_line(t, line_end(t, q)),
            k,
        )
    } else {
        Seq::empty()
    }
}

/// The start of the first line at or after `q` that is no body row.
pub open spec fn rows_stop(t: Seq<char>, q: int) -> int
    decreases t.len() - q,
{
    if 0 <= q < t.len() && has_sep(t, q, line_end(t, q)) {
        proof {
            lemma_next_line(t, q);
        }
        rows_stop(t, next_line(t, line_end(t, q)))
    } else {
        q
    }
}

/// Whether a table starts with the line `t[p..e)`: the line holds a
/// separator and the line after it is a delimiter row.
pub open spec fn starts_table(t: Seq<char>, p: int, e: int) -> bool {
    has_sep(t, p, e) && e < t.len() && align_row(t, e + 1, line_end(t, e + 1)) is Some
}

/// The table that starts with the line `t[p..e)`.
pub open spec fn table_at(t: Seq<char>, p: int, e: int) -> TableView {
    let e2 = line_end(t, e + 1);
    let aligns = align_row(t, e + 1, e2)->0;
    TableView {
        aligns: aligns,
        header: row_cells(t, p, e, aligns.len()),
        rows: rows_from(t, next_line(t, e2), aligns.len()),
    }
}

/// The start of the first line behind the table that starts at `t[p..e)`.
pub open spec fn table_stop(t: Seq<char>, e: int) -> int {
    rows_stop(t, next_line(t, line_end(t, e + 1)))
}

/// The cells of a row lie inside its line.
pub proof fn lemma_row_bounds(t: Seq<char>, p: int, e: int)
    requires
        0 <= p <= e <= t.len(),
    ensures
        p <= row_lo(t, p, e) <= row_hi(t, p, e) <= e,
{
    lemma_run_end(t, CharClass::Is(' '), p, e);
    lemma_run_start(t, CharClass::Is(' '), row_lo(t, p, e), e);
}

/// A row is asked for `k` cells and has `k` cells.
pub proof fn lemma_cells_len(t: Seq<char>, a: int, b: int, k: nat)
    ensures
        cells_from(t, a, b, k).len() == k,
    decreases k,
{
    if k == 0 {
    } else if 0 <= a <= b <= t.len() {
        lemma_cells_len(t, run_end(t, CharClass::Cell, a, b) + 1, b, (k - 1) as nat);
    } else {
        lemma_cells_len(t, a, b, (k - 1) as nat);
    }
}

/// A delimiter row has at least one cell.
pub proof fn lemma_aligns_len(t: Seq<char>, a: int, b: int)
    requires
        0 <= a <= b <= t.len(),
    ensures
        aligns_from(t, a, b) matches Some(al) ==> al.len() >= 1,
{
}

/// Every body row has `k` cells.
pub proof fn lemma_rows_len(t: Seq<char>, q: int, k: nat)
    ensures
        forall|r: int| 0 <= r < rows_from(t, q, k).len() ==> (#[trigger] rows_from(t, q, k)[r]).len()
            == k,
    decreases t.len() - q,
{
    if 0 <= q < t.len() && has_sep(t, q, line_end(t, q)) {
        lemma_next_line(t, q);
        let e = line_end(t, q);
        lemma_cells_len(t, row_lo(t, q, e), row_hi(t, q, e), k);
        lemma_rows_len(t, next_line(t, e), k);
        let rest = rows_from(t, next_line(t, e), k);
        assert forall|r: int| 0 <= r < rows_from(t, q, k).len() implies (#[trigger] rows_from(
            t,
            q,
            k,
        )[r]).len() == k by {
            if r > 0 {
                assert(rows_from(t, q, k)[r] == rest[r - 1]);
            }
        }
    }
}

/// The rows of a table end at or behind where they start, inside the text.
pub proof fn lemma_rows_stop(t: Seq<char>, q: int)
    requires
        0 <= q <= t.len(),
    ensures
        q <= rows_stop(t, q) <= t.len(),
    decreases t.len() - q,
{
    if 0 <= q < t.len() && has_sep(t, q, line_end(t, q)) {
        lemma_next_line(t, q);
        lemma_rows_stop(t, next_line(t, line_end(t, q)));
    }
}

/// A table that the scanner builds is well-formed.
pub proof fn lemma_table_wf(t: Seq<char>, p: int, e: int)
    requires
        0 <= p <= e <= t.len(),
        starts_table(t, p, e),
    ensures
        table_at(t, p, e).wf(),
{
    let e2 = line_end(t, e + 1);
    lemma_next_line(t, e + 1);
    lemma_row_bounds(t, e + 1, e2);
    lemma_aligns_len(t, row_lo(t, e + 1, e2), row_hi(t, e + 1, e2));
    let k = (align_row(t, e + 1, e2)->0).len();
    lemma_cells_len(t, row_lo(t, p, e), row_hi(t, p, e), k);
    lemma_rows_len(t, next_line(t, e2), k);
}

fn has_sep_at(v: &Vec<char>, p: usize, e: usize) -> (r: bool)
    requires
        p <= e <= v.len(),
    ensures
        r == has_sep(v@, p as int, e as int),
{
    scan_run(v, CharClass::Cell, p, e) < e
}

fn row_bounds(v: &Vec<char>, p: usize, e: usize) -> (r: (usize, usize))
    requires
        p <= e <= v.len(),
    ensures
        r.0 == row_lo(v@, p as int, e as int),
        r.1 == row_hi(v@, p as int, e as int),
        p <= r.0 <= r.1 <= e,
{
    let a0 = scan_run(v, CharClass::Is(' '), p, e);
    let a = if a0 < e && v[a0] == '|' {
        a0 + 1
    } else {
        a0
    };
    let b0 = scan_run_back(v, CharClass::Is(' '), a, e);
    let b = if a < b0 && v[b0 - 1] == '|' {
        b0 - 1
    } else {
        b0
    };
    (a, b)
}

fn cell_align_at(v: &Vec<char>, a: usize, e: usize) -> (r: Option<Alignment>)
    requires
        a <= e <= v.len(),
    ensures
        r == cell_align(v@, a as int, e as int),
{
    let (x, y) = trim(v, a, e);
    let left = x < y && v[x] == ':';
    let x2 = if left {
        x + 1
    } else {
        x
    };
    let right = x2 < y && v[y - 1] == ':';
    let y2 = if right {
        y - 1
    } else {
        y
    };
    if x2 < y2 && scan_run(v, CharClass::Is('-'), x2, y2) == y2 {
        Some(
            if left && right {
                Alignment::Center
            } else if left {
                Alignment::Left
            } else if right {
                Alignment::Right
            } else {
                Alignment::Unset
            },
        )
    } else {
        None
    }
}

fn parse_aligns(v: &Vec<char>, a: usize, b: usize) -> (r: Option<Vec<Alignment>>)
    requires
        a <= b <= v.len(),
    ensures
        match r {
            Some(al) => aligns_from(v@, a as int, b as int) == Some(al@),
            None => aligns_from(v@, a as int, b as int) is None,
        },
{
    let mut out: Vec<Alignment> = Vec::new();
    let mut cur: usize = a;
    loop
        invariant
            a <= cur <= b <= v.len(),
            aligns_from(v@, a as int, b as int) == match aligns_from(v@, cur as int, b as int) {
                None => None,
                Some(rest) => Some(out@ + rest),
            },
        decreases b - cur,
    {
        let e = scan_run(v, CharClass::Cell, cur, b);
        match cell_align_at(v, cur, e) {
            None => {
                return None;
            },
            Some(al) => {
                let ghost before = out@;
                out.push(al);
                proof {
                    match aligns_from(v@, e + 1, b as int) {
                        Some(rest) => {
                            assert(before.push(al) + rest =~= before + (seq![al] + rest));
                        },
                        None => {},
                    }
                }
                if e >= b {
                    assert(out@ + Seq::<Alignment>::empty() =~= out@);
                    return Some(out);
                }
                cur = e + 1;
            },
        }
    }
}

fn parse_cells(v: &Vec<char>, a: usize, b: usize, k: usize) -> (out: Vec<Vec<InlineSpan>>)
    requires
        a <= b <= v.len(),
    ensures
        cells_view(out@) == cells_from(v@, a as int, b as int, k as nat),
        out.len() == k,
{
    let mut out: Vec<Vec<InlineSpan>> = Vec::new();
    let mut cur: usize = a;
    let mut more = true;
    let mut n: usize = 0;
    while n < k
        invariant
            n <= k,
            out.len() == n,
            a <= cur <= b <= v.len(),
            cells_from(v@, a as int, b as int, k as nat) == cells_view(out@) + cells_from(
                v@,
                if more {
                    cur as int
                } else {
                    b + 1
                },
                b as int,
                (k - n) as nat,
            ),
        decreases k - n,
    {
        let cell = if more {
            let e = scan_run(v, CharClass::Cell, cur, b);
            let (x, y) = trim(v, cur, e);
            let c = parse_range(v, x, y);
            if e < b {
                cur = e + 1;
            } else {
                more = false;
            }
            c
        } else {
            let c: Vec<InlineSpan> = Vec::new();
            assert(spans_view(c@) =~= Seq::<SpanView>::empty());
            c
        };
        let ghost before = out@;
        let ghost cv = spans_view(cell@);
        out.push(cell);
        assert(cells_view(out@) =~= cells_view(before).push(cv));
        n = n + 1;
    }
    out
}

fn parse_rows(v: &Vec<char>, q: usize, k: usize) -> (r: (Vec<Vec<Vec<InlineSpan>>>, usize))
    requires
        q <= v.len(),
    ensures
        rows_view(r.0@) == rows_from(v@, q as int, k as nat),
        r.1 == rows_stop(v@, q as int),
        q <= r.1 <= v.len(),
{
    let mut rows: Vec<Vec<Vec<InlineSpan>>> = Vec::new();
    let mut cur: usize = q;
    loop
        invariant
            q <= cur <= v.len(),
            rows_from(v@, q as int, k as nat) == rows_view(rows@) + rows_from(
                v@,
                cur as int,
                k as nat,
            ),
            rows_stop(v@, q as int) == rows_stop(v@, cur as int),
        ensures
            rows_from(v@, cur as int, k as nat) == Seq::<Seq<Seq<SpanView>>>::empty(),
            rows_stop(v@, cur as int) == cur,
        decreases v.len() - cur,
    {
        if cur >= v.len() {
            break ;
        }
        let e = find_line_end(v, cur);
        if !has_sep_at(v, cur, e) {
            break ;
        }
        let (a, b) = row_bounds(v, cur, e);
        let cells = parse_cells(v, a, b, k);
        let ghost before = rows@;
        let ghost cv = cells_view(cells@);
        rows.push(cells);
        assert(rows_view(rows@) =~= rows_view(before).push(cv));
        proof {
            lemma_next_line(v@, cur as int);
        }
        cur = step_line(v, e);
    }
    (rows, cur)
}

/// Whether a table starts with the line `v[p..e)`.
pub fn table_starts(v: &Vec<char>, p: usize, e: usize) -> (r: bool)
    requires
        p <= e <= v.len(),
    ensures
        r == starts_table(v@, p as int, e as int),
{
    if !has_sep_at(v, p, e) || e >= v.len() {
        return false;
    }
    let e2 = find_line_end(v, e + 1);
    let (a2, b2) = row_bounds(v, e + 1, e2);
    parse_aligns(v, a2, b2).is_some()
}

/// Builds the table that starts with the line `v[p..e)`, if one does: the
/// line after it fixes the number of columns and their alignment, and each
/// row is padded or cut to that number. Returns the table and the start of
/// the first line behind it.
pub fn build_table(v: &Vec<char>, p: usize, e: usize) -> (r: Option<(Table, usize)>)
    requires
        p <= e <= v.len(),
    ensures
        match r {
            Some((tb, next)) => {
                &&& starts_table(v@, p as int, e as int)
                &&& tb@ == table_at(v@, p as int, e as int)
                &&& tb@.wf()
                &&& next == table_stop(v@, e as int)
                &&& e < next <= v.len()
            },
            None => !starts_table(v@, p as int, e as int),
        },
{
    if !has_sep_at(v, p, e) || e >= v.len() {
        return None;
    }
    let d = e + 1;
    let e2 = find_line_end(v, d);
    let (a2, b2) = row_bounds(v, d, e2);
    match parse_aligns(v, a2, b2) {
        None => None,
        Some(aligns) => {
            let k = aligns.len();
            let (a, b) = row_bounds(v, p, e);
            let header = parse_cells(v, a, b, k);
            let q = step_line(v, e2);
            let (rows, stop) = parse_rows(v, q, k);
            proof {
                lemma_table_wf(v@, p as int, e as int);
            }
            Some((Table { aligns, header, rows }, stop))
        },
    }
}

} // verus!
