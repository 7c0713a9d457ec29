//! The list builder: markers, task boxes and nesting depth for a run of
//! list lines.

use vstd::prelude::*;
use crate::inline::{parse_range, parse_spans};
use crate::model::{views, ListItem, ListItemView, TaskState};
use crate::text::{
    copy_range, find_line_end, is_blank_line, blank_line, lemma_next_line, lemma_run_end,
    lemma_skip_blank, line_end, next_line, run_end, scan_run, skip_blank, skip_blank_lines,
    step_line, trim, trim_hi, trim_lo, CharClass,
};

verus! {

/// The indentation that one nesting level takes until a nested item shows
/// another.
pub const DEFAULT_INDENT: usize = 2;

/// The list marker of a line, if it has one.
pub struct Marker {
    /// Whether the line starts, behind its indentation, with a marker.
    pub found: bool,
    /// Whether the marker is a number.
    pub ordered: bool,
    /// The number of blanks in front of the marker.
    pub indent: int,
    /// The range of the digits of an ordered marker; empty otherwise.
    pub num_lo: int,
    pub num_hi: int,
    /// The position behind the marker and the space after it.
    pub body: int,
}

/// The marker of the line `t[p..e)`: behind any blanks, one of `-`, `*` and
/// `+`, or digits and one of `.` and `)`; in both cases a space follows.
pub open spec fn list_marker(t: Seq<char>, p: int, e: int) -> Marker {
    let ws = run_end(t, CharClass::Blank, p, e);
    let d = run_end(t, CharClass::Digit, ws, e);
    if ws + 1 < e && (t[ws] == '-' || t[ws] == '*' || t[ws] == '+') && t[ws + 1] == ' ' {
        Marker { found: true, ordered: false, indent: ws - p, num_lo: ws, num_hi: ws, body: ws + 2 }
    } else if ws < d && d + 1 < e && (t[d] == '.' || t[d] == ')') && t[d + 1] == ' ' {
        Marker { found: true, ordered: true, indent: ws - p, num_lo: ws, num_hi: d, body: d + 2 }
    } else {
        Marker { found: false, ordered: false, indent: 0, num_lo: p, num_hi: p, body: p }
    }
}

/// The checkbox at `c`, if there is one: `[ ]`, `[x]` or `[X]`, at the end
/// of the line or before a space.
pub open spec fn task_at(t: Seq<char>, c: int, e: int) -> Option<TaskState> {
    if c + 2 < e && t[c] == '[' && t[c + 2] == ']' && (c + 3 == e || t[c + 3] == ' ') {
        if t[c + 1] == ' ' {
            Some(TaskState::Unchecked)
        } else if t[c + 1] == 'x' || t[c + 1] == 'X' {
            Some(TaskState::Checked)
        } else {
            None
        }
    } else {
        None
    }
}

/// The indentation unit once a line with indentation `indent` was seen. The
/// unit is 0 until the first indented item fixes it.
pub open spec fn next_unit(unit: int, indent: int) -> int {
    if unit == 0 && indent > 0 {
        indent
    } else {
        unit
    }
}

/// The nesting depth of an item with indentation `indent`.
pub open spec fn depth_of(unit: int, indent: int) -> int {
    if unit == 0 {
        indent / (DEFAULT_INDENT as int)
    } else {
        indent / unit
    }
}

/// The item on the line `t[p..e)`, which has a marker.
pub open spec fn item_at(t: Seq<char>, p: int, e: int, unit: int) -> ListItemView {
    let m = list_marker(t, p, e);
    let c = trim_lo(t, m.body, e);
    let task = task_at(t, c, e);
    let lo = if task is Some {
        c + 3
    } else {
        c
    };
    ListItemView {
        depth: depth_of(next_unit(unit, m.indent), m.indent) as nat,
        ordered: m.ordered,
        number: t.subrange(m.num_lo, m.num_hi),
        task: task,
        content: parse_spans(t, trim_lo(t, lo, e), trim_hi(t, lo, e)),
    }
}

/// What a run of list lines gives: its items, the start of the first line
/// behind it, and the indentation unit after it.
pub struct ListRun {
    pub items: Seq<ListItemView>,
    pub stop: int,
    pub unit: int,
}

/// The run of list lines from the line at `q` on, for a list whose
/// outermost items are ordered or not as `flag` says.
///
/// Blank lines between items are passed over. The run ends before a line
/// that is neither blank nor a list line, before blank lines that no list
/// line follows, and before an outermost item of the other kind, which
/// starts a list of its own.
pub open spec fn list_run(t: Seq<char>, q: int, unit: int, flag: bool) -> ListRun
    decreases t.len() - q,
{
    if 0 <= q < t.len() {
        let e = line_end(t, q);
        let m = list_marker(t, q, e);
        proof {
            lemma_next_line(t, q);
            lemma_skip_blank(t, q);
        }
        if m.found {
            let u = next_unit(unit, m.indent);
            if depth_of(u, m.indent) == 0 && m.ordered != flag {
                ListRun { items: Seq::empty(), stop: q, unit: unit }
            } else {
                let rest = list_run(t, next_line(t, e), u, flag);
                ListRun {
                    items: seq![item_at(t, q, e, unit)] + rest.items,
                    stop: rest.stop,
                    unit: rest.unit,
                }
            }
        } else if is_blank_line(t, q, e) {
            let r = skip_blank(t, q);
            if r < t.len() && list_marker(t, r, line_end(t, r)).found {
                list_run(t, r, unit, flag)
            } else {
                ListRun { items: Seq::empty(), stop: q, unit: unit }
            }
        } else {
            ListRun { items: Seq::empty(), stop: q, unit: unit }
        }
    } else {
        ListRun { items: Seq::empty(), stop: q, unit: unit }
    }
}

/// The list that starts with the line at `p`, which has a marker.
pub open spec fn list_at(t: Seq<char>, p: int, unit: int) -> ListRun {
    list_run(t, p, unit, list_marker(t, p, line_end(t, p)).ordered)
}

/// A marker lies inside its line.
pub proof fn lemma_marker_bounds(t: Seq<char>, p: int, e: int)
    requires
        0 <= p <= e <= t.len(),
    ensures
        ({
            let m = list_marker(t, p, e);
            &&& 0 <= m.indent
            &&& p <= m.num_lo <= m.num_hi <= m.body <= e
            &&& m.found ==> m.num_lo == p + m.indent
        }),
{
    let ws = run_end(t, CharClass::Blank, p, e);
    lemma_run_end(t, CharClass::Blank, p, e);
    lemma_run_end(t, CharClass::Digit, ws, e);
}

/// A run of list lines ends inside the text, at or behind its start.
pub proof fn lemma_list_run_stop(t: Seq<char>, q: int, unit: int, flag: bool)
    requires
        0 <= q <= t.len(),
        0 <= unit,
    ensures
        q <= list_run(t, q, unit, flag).stop <= t.len(),
        0 <= list_run(t, q, unit, flag).unit,
    decreases t.len() - q,
{
    if q < t.len() {
        let e = line_end(t, q);
        let m = list_marker(t, q, e);
        lemma_next_line(t, q);
        lemma_skip_blank(t, q);
        lemma_marker_bounds(t, q, e);
        if m.found {
            let u = next_unit(unit, m.indent);
            if depth_of(u, m.indent) == 0 && m.ordered != flag {
            } else {
                lemma_list_run_stop(t, next_line(t, e), u, flag);
            }
        } else if is_blank_line(t, q, e) {
            let r = skip_blank(t, q);
            if r < t.len() && list_marker(t, r, line_end(t, r)).found {
                lemma_list_run_stop(t, r, unit, flag);
            }
        }
    }
}

/// The list that starts with a marker line has an item and ends behind
/// that line.
pub proof fn lemma_list_at(t: Seq<char>, p: int, unit: int)
    requires
        0 <= p < t.len(),
        0 <= unit,
        list_marker(t, p, line_end(t, p)).found,
    ensures
        list_at(t, p, unit).items.len() >= 1,
        p < list_at(t, p, unit).stop <= t.len(),
        0 <= list_at(t, p, unit).unit,
{
    let e = line_end(t, p);
    let m = list_marker(t, p, e);
    lemma_next_line(t, p);
    lemma_marker_bounds(t, p, e);
    lemma_list_run_stop(t, next_line(t, e), next_unit(unit, m.indent), m.ordered);
}

/// Where the marker of a line lies, in executable form.
pub struct MarkerPos {
    pub found: bool,
    pub ordered: bool,
    pub indent: usize,
    pub num_lo: usize,
    pub num_hi: usize,
    pub body: usize,
}

impl View for MarkerPos {
    type V = Marker;

    open spec fn view(&self) -> Marker {
        Marker {
            found: self.found,
            ordered: self.ordered,
            indent: self.indent as int,
            num_lo: self.num_lo as int,
            num_hi: self.num_hi as int,
            body: self.body as int,
        }
    }
}

/// Finds the list marker of the line `v[p..e)`.
pub fn marker_at(v: &Vec<char>, p: usize, e: usize) -> (m: MarkerPos)
    requires
        p <= e <= v.len(),
    ensures
        m@ == list_marker(v@, p as int, e as int),
        p <= m.num_lo <= m.num_hi <= m.body <= e,
{
    proof {
        lemma_marker_bounds(v@, p as int, e as int);
    }
    let ws = scan_run(v, CharClass::Blank, p, e);
    if e - ws > 1 && (v[ws] == '-' || v[ws] == '*' || v[ws] == '+') && v[ws + 1] == ' ' {
        return MarkerPos {
            found: true,
            ordered: false,
            indent: ws - p,
            num_lo: ws,
            num_hi: ws,
            body: ws + 2,
        };
    }
    let d = scan_run(v, CharClass::Digit, ws, e);
    if ws < d && e - d > 1 && (v[d] == '.' || v[d] == ')') && v[d + 1] == ' ' {
        MarkerPos { found: true, ordered: true, indent: ws - p, num_lo: ws, num_hi: d, body: d + 2 }
    } else {
        MarkerPos { found: false, ordered: false, indent: 0, num_lo: p, num_hi: p, body: p }
    }
}

fn task_box(v: &Vec<char>, c: usize, e: usize) -> (r: Option<TaskState>)
    requires
        c <= e <= v.len(),
    ensures
        r == task_at(v@, c as int, e as int),
{
    if e - c > 2 && v[c] == '[' && v[c + 2] == ']' && (e - c == 3 || v[c + 3] == ' ') {
        if v[c + 1] == ' ' {
            Some(TaskState::Unchecked)
        } else if v[c + 1] == 'x' || v[c + 1] == 'X' {
            Some(TaskState::Checked)
        } else {
            None
        }
    } else {
        None
    }
}

fn unit_after(unit: usize, indent: usize) -> (r: usize)
    ensures
        r == next_unit(unit as int, indent as int),
{
    if unit == 0 && indent > 0 {
        indent
    } else {
        unit
    }
}

fn depth_at(unit: usize, indent: usize) -> (r: usize)
    ensures
        r == depth_of(unit as int, indent as int),
{
    if unit == 0 {
        indent / DEFAULT_INDENT
    } else {
        indent / unit
    }
}

fn make_item(v: &Vec<char>, p: usize, e: usize, unit: usize, m: &MarkerPos) -> (item: ListItem)
    requires
        p <= e <= v.len(),
        m@ == list_marker(v@, p as int, e as int),
        p <= m.num_lo <= m.num_hi <= m.body <= e,
    ensures
        item@ == item_at(v@, p as int, e as int, unit as int),
{
    let (c, _) = trim(v, m.body, e);
    let task = task_box(v, c, e);
    let lo = if task.is_some() {
        c + 3
    } else {
        c
    };
    let (x, y) = trim(v, lo, e);
    ListItem {
        depth: depth_at(unit_after(unit, m.indent), m.indent),
        ordered: m.ordered,
        number: copy_range(v, m.num_lo, m.num_hi),
        task: task,
        content: parse_range(v, x, y),
    }
}

/// Builds the list that starts with the line at `p`, which has a marker:
/// its items with their nesting depth, whether its outermost items are
/// ordered, the start of the first line behind it, and the indentation unit
/// after it.
pub fn build_list(v: &Vec<char>, p: usize, unit: usize) -> (r: (Vec<ListItem>, bool, usize, usize))
    requires
        p < v.len(),
        list_marker(v@, p as int, line_end(v@, p as int)).found,
    ensures
        views(r.0@) == list_at(v@, p as int, unit as int).items,
        r.1 == list_marker(v@, p as int, line_end(v@, p as int)).ordered,
        r.2 == list_at(v@, p as int, unit as int).stop,
        r.3 == list_at(v@, p as int, unit as int).unit,
        r.0.len() >= 1,
        p < r.2 <= v.len(),
{
    let e0 = find_line_end(v, p);
    let flag = marker_at(v, p, e0).ordered;
    let mut items: Vec<ListItem> = Vec::new();
    let mut cur: usize = p;
    let mut u: usize = unit;
    loop
        invariant
            p <= cur <= v.len(),
            ({
                let whole = list_run(v@, p as int, unit as int, flag);
                let rest = list_run(v@, cur as int, u as int, flag);
                &&& whole.items == views(items@) + rest.items
                &&& whole.stop == rest.stop
                &&& whole.unit == rest.unit
            }),
        ensures
            ({
                let rest = list_run(v@, cur as int, u as int, flag);
                &&& rest.items == Seq::<ListItemView>::empty()
                &&& rest.stop == cur
                &&& rest.unit == u
            }),
        decreases v.len() - cur,
    {
        if cur >= v.len() {
            break ;
        }
        let e = find_line_end(v, cur);
        let m = marker_at(v, cur, e);
        proof {
            lemma_next_line(v@, cur as int);
            lemma_skip_blank(v@, cur as int);
        }
        if m.found {
            let u2 = unit_after(u, m.indent);
            if depth_at(u2, m.indent) == 0 && m.ordered != flag {
                break ;
            }
            let item = make_item(v, cur, e, u, &m);
            let ghost before = items@;
            let ghost iv = item@;
            items.push(item);
            assert(views(items@) =~= views(before).push(iv));
            u = u2;
            cur = step_line(v, e);
        } else if blank_line(v, cur, e) {
            let r = skip_blank_lines(v, cur);
            if r < v.len() {
                let er = find_line_end(v, r);
                if marker_at(v, r, er).found {
                    cur = r;
                } else {
                    break ;
                }
            } else {
                break ;
            }
        } else {
            break ;
        }
    }
    proof {
        lemma_list_at(v@, p as int, unit as int);
    }
    (items, flag, cur, u)
}

} // verus!
