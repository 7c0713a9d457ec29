//! The emitter: renders a document as Typst source text.

use vstd::prelude::*;
use crate::footnote::{index_from, note_ids};
use crate::inline::{spans_view, InlineSpan, SpanView};
use crate::model::{
    cells_view, rows_view, views, Alignment, Block, BlockView, Document, DocumentView, Footnote,
    FootnoteView, ListItem, ListItemView, Table, TableView, TaskState,
};
use crate::text::{push_all, push_str, same_text, to_string};

verus! {

/// The character of a decimal digit.
pub open spec fn digit_char(d: int) -> char {
    if d == 0 {
        '0'
    } else if d == 1 {
        '1'
    } else if d == 2 {
        '2'
    } else if d == 3 {
        '3'
    } else if d == 4 {
        '4'
    } else if d == 5 {
        '5'
    } else if d == 6 {
        '6'
    } else if d == 7 {
        '7'
    } else if d == 8 {
        '8'
    } else {
        '9'
    }
}

/// The decimal numeral of `n`, without leading zeros.
pub open spec fn decimal(n: nat) -> Seq<char>
    decreases n,
{
    if n < 10 {
        seq![digit_char(n as int)]
    } else {
        decimal(n / 10) + seq![digit_char((n % 10) as int)]
    }
}

/// `n` times the character `c`.
pub open spec fn repeat(c: char, n: nat) -> Seq<char> {
    Seq::new(n, |k: int| c)
}

/// What stands between the brackets of a footnote mark: the number of the
/// footnote, or the label itself where no footnote has it.
pub open spec fn mark_text(id: Seq<char>, notes: Seq<FootnoteView>) -> Seq<char> {
    match index_from(note_ids(notes), id, 0) {
        Some(k) => decimal((k + 1) as nat),
        None => id,
    }
}

/// The Typst text of a span.
pub open spec fn emit_span(sp: SpanView, notes: Seq<FootnoteView>) -> Seq<char>
    decreases sp, 0int,
{
    match sp {
        SpanView::Text(s) => s,
        SpanView::Emphasis(ch) => "#emph["@ + emit_spans(ch, 0, notes) + "]"@,
        SpanView::Strong(ch) => "#strong["@ + emit_spans(ch, 0, notes) + "]"@,
        SpanView::Strike(ch) => "#strike["@ + emit_spans(ch, 0, notes) + "]"@,
        SpanView::InlineCode(s) => "`"@ + s + "`"@,
        SpanView::FootnoteRef(id) => "#super["@ + mark_text(id, notes) + "]"@,
        SpanView::LineBreak => "\\\n"@,
    }
}

/// The Typst text of `spans[k..]`.
pub open spec fn emit_spans(spans: Seq<SpanView>, k: int, notes: Seq<FootnoteView>) -> Seq<char>
    decreases spans, spans.len() - k,
{
    if 0 <= k < spans.len() {
        emit_span(spans[k], notes) + emit_spans(spans, k + 1, notes)
    } else {
        Seq::empty()
    }
}

/// The checkbox of a task item.
pub open spec fn task_text(task: Option<TaskState>) -> Seq<char> {
    match task {
        Some(TaskState::Checked) => "[x] "@,
        Some(TaskState::Unchecked) => "[ ] "@,
        None => Seq::empty(),
    }
}

/// The line of a list item: two spaces for each level of nesting, the
/// marker, the checkbox if there is one, and the text.
pub open spec fn emit_item(item: ListItemView, notes: Seq<FootnoteView>) -> Seq<char> {
    repeat(' ', 2 * item.depth) + (if item.ordered {
        item.number + ". "@
    } else {
        "- "@
    }) + task_text(item.task) + emit_spans(item.content, 0, notes) + "\n"@
}

/// The lines of `items[k..]`.
pub open spec fn emit_items(items: Seq<ListItemView>, k: int, notes: Seq<FootnoteView>) -> Seq<
    char,
>
    decreases items.len() - k,
{
    if 0 <= k < items.len() {
        emit_item(items[k], notes) + emit_items(items, k + 1, notes)
    } else {
        Seq::empty()
    }
}

/// Typst's word for an alignment.
pub open spec fn align_word(a: Alignment) -> Seq<char> {
    match a {
        Alignment::Left => "left"@,
        Alignment::Center => "center"@,
        Alignment::Right => "right"@,
        Alignment::Unset => "auto"@,
    }
}

/// The alignments `aligns[k..]`, each with a comma behind it.
pub open spec fn emit_aligns(aligns: Seq<Alignment>, k: int) -> Seq<char>
    decreases aligns.len() - k,
{
    if 0 <= k < aligns.len() {
        (if k > 0 {
            " "@
        } else {
            Seq::empty()
        }) + align_word(aligns[k]) + ","@ + emit_aligns(aligns, k + 1)
    } else {
        Seq::empty()
    }
}

/// The cells `cells[k..]`, each in brackets with a comma behind it.
pub open spec fn emit_cells(cells: Seq<Seq<SpanView>>, k: int, notes: Seq<FootnoteView>) -> Seq<
    char,
>
    decreases cells.len() - k,
{
    if 0 <= k < cells.len() {
        (if k > 0 {
            " "@
        } else {
            Seq::empty()
        }) + "["@ + emit_spans(cells[k], 0, notes) + "],"@ + emit_cells(cells, k + 1, notes)
    } else {
        Seq::empty()
    }
}

/// The line of a table row.
pub open spec fn emit_row(cells: Seq<Seq<SpanView>>, notes: Seq<FootnoteView>) -> Seq<char> {
    "  "@ + emit_cells(cells, 0, notes) + "\n"@
}

/// The lines of `rows[k..]`.
pub open spec fn emit_rows(rows: Seq<Seq<Seq<SpanView>>>, k: int, notes: Seq<FootnoteView>) -> Seq<
    char,
>
    decreases rows.len() - k,
{
    if 0 <= k < rows.len() {
        emit_row(rows[k], notes) + emit_rows(rows, k + 1, notes)
    } else {
        Seq::empty()
    }
}

/// The Typst text of a table: the number of columns, their alignments, and
/// every cell in row-major order, the header first.
pub open spec fn emit_table(tv: TableView, notes: Seq<FootnoteView>) -> Seq<char> {
    "#table(\n  columns: "@ + decimal(tv.aligns.len()) + ",\n  align: ("@ + emit_aligns(
        tv.aligns,
        0,
    ) + "),\n"@ + emit_row(tv.header, notes) + emit_rows(tv.rows, 0, notes) + ")\n"@
}

/// The text of an optional text.
pub open spec fn opt_text(o: Option<Seq<char>>) -> Seq<char> {
    match o {
        Some(s) => s,
        None => Seq::empty(),
    }
}

/// The line feed that a code block needs before its closing fence: none if
/// its text is empty or ends with one.
pub open spec fn fence_gap(raw: Seq<char>) -> Seq<char> {
    if raw.len() > 0 && raw[raw.len() - 1] != '\n' {
        "\n"@
    } else {
        Seq::empty()
    }
}

/// The Typst text of a block. A footnote definition and a blank render as
/// nothing.
pub open spec fn emit_block(b: BlockView, notes: Seq<FootnoteView>) -> Seq<char> {
    match b {
        BlockView::Heading { level, content } => repeat('=', level) + " "@ + emit_spans(
            content,
            0,
            notes,
        ) + "\n"@,
        BlockView::Paragraph(content) => emit_spans(content, 0, notes) + "\n"@,
        BlockView::List { items, .. } => emit_items(items, 0, notes),
        BlockView::CodeBlock { lang, raw } => "```"@ + opt_text(lang) + "\n"@ + raw + fence_gap(raw)
            + "```\n"@,
        BlockView::BlockQuote(content) => "#quote["@ + emit_spans(content, 0, notes) + "]\n"@,
        BlockView::Table(tv) => emit_table(tv, notes),
        BlockView::FootnoteDefinition { .. } => Seq::empty(),
        BlockView::ThematicBreak => "#line(length: 100%)\n"@,
        BlockView::Blank => Seq::empty(),
    }
}

/// Whether a block renders as anything.
pub open spec fn is_visible(b: BlockView) -> bool {
    !(b is FootnoteDefinition) && !(b is Blank)
}

/// Whether one of `blocks[..k]` is visible.
pub open spec fn visible_before(blocks: Seq<BlockView>, k: int) -> bool
    decreases k,
{
    if 0 < k <= blocks.len() {
        is_visible(blocks[k - 1]) || visible_before(blocks, k - 1)
    } else {
        false
    }
}

/// The Typst text of `blocks[k..]`: every visible block, with an empty
/// line before each but the first of the document.
pub open spec fn emit_blocks(blocks: Seq<BlockView>, k: int, notes: Seq<FootnoteView>) -> Seq<char>
    decreases blocks.len() - k,
{
    if 0 <= k < blocks.len() {
        (if is_visible(blocks[k]) {
            (if visible_before(blocks, k) {
                "\n"@
            } else {
                Seq::empty()
            }) + emit_block(blocks[k], notes)
        } else {
            Seq::empty()
        }) + emit_blocks(blocks, k + 1, notes)
    } else {
        Seq::empty()
    }
}

/// The paragraph of the footnote `notes[k]`: its number, then its text.
/// `lead` says whether anything stands before the first footnote; an empty
/// line parts the paragraph from what stands before it.
pub open spec fn emit_note(notes: Seq<FootnoteView>, k: int, lead: bool) -> Seq<char> {
    (if lead || k > 0 {
        "\n"@
    } else {
        Seq::empty()
    }) + "#super["@ + decimal((k + 1) as nat) + "] "@ + emit_spans(notes[k].content, 0, notes)
        + "\n"@
}

/// The paragraphs of the footnotes `notes[k..]`.
pub open spec fn emit_notes(notes: Seq<FootnoteView>, k: int, lead: bool) -> Seq<char>
    decreases notes.len() - k,
{
    if 0 <= k < notes.len() {
        emit_note(notes, k, lead) + emit_notes(notes, k + 1, lead)
    } else {
        Seq::empty()
    }
}

/// The Typst text of a document: its body, then its footnotes.
pub open spec fn emit_doc(doc: DocumentView) -> Seq<char> {
    emit_blocks(doc.blocks, 0, doc.footnotes) + emit_notes(
        doc.footnotes,
        0,
        visible_before(doc.blocks, doc.blocks.len() as int),
    )
}

/// Whether `needle` stands in `hay` at position `i`.
pub open spec fn occurs_at(needle: Seq<char>, hay: Seq<char>, i: int) -> bool {
    0 <= i && i + needle.len() <= hay.len() && hay.subrange(i, i + needle.len()) == needle
}

/// Whether `needle` stands somewhere in `hay`, in one piece.
pub open spec fn occurs(needle: Seq<char>, hay: Seq<char>) -> bool {
    exists|i: int| occurs_at(needle, hay, i)
}

proof fn lemma_occurs_self(needle: Seq<char>)
    ensures
        occurs(needle, needle),
{
    assert(needle.subrange(0, needle.len() as int) =~= needle);
    assert(occurs_at(needle, needle, 0));
}

proof fn lemma_occurs_inside(needle: Seq<char>, before: Seq<char>, hay: Seq<char>, after: Seq<char>)
    requires
        occurs(needle, hay),
    ensures
        occurs(needle, before + hay + after),
{
    let i = choose|i: int| occurs_at(needle, hay, i);
    let whole = before + hay + after;
    assert(whole.subrange(before.len() + i, before.len() + i + needle.len()) =~= hay.subrange(
        i,
        i + needle.len(),
    ));
    assert(occurs_at(needle, whole, before.len() + i));
}

proof fn lemma_cells_keep_text(
    cells: Seq<Seq<SpanView>>,
    k: int,
    j: int,
    notes: Seq<FootnoteView>,
)
    requires
        0 <= k <= j < cells.len(),
    ensures
        occurs(emit_spans(cells[j], 0, notes), emit_cells(cells, k, notes)),
    decreases j - k,
{
    let sep = if k > 0 {
        " "@
    } else {
        Seq::empty()
    };
    let cell = emit_spans(cells[k], 0, notes);
    let rest = emit_cells(cells, k + 1, notes);
    if j == k {
        lemma_occurs_self(cell);
        lemma_occurs_inside(cell, sep + "["@, cell, "],"@ + rest);
        assert(emit_cells(cells, k, notes) =~= (sep + "["@) + cell + ("],"@ + rest));
    } else {
        lemma_cells_keep_text(cells, k + 1, j, notes);
        lemma_occurs_inside(
            emit_spans(cells[j], 0, notes),
            sep + "["@ + cell + "],"@,
            rest,
            Seq::empty(),
        );
        assert(emit_cells(cells, k, notes) =~= (sep + "["@ + cell + "],"@) + rest + Seq::<
            char,
        >::empty());
    }
}

proof fn lemma_row_keeps_text(cells: Seq<Seq<SpanView>>, j: int, notes: Seq<FootnoteView>)
    requires
        0 <= j < cells.len(),
    ensures
        occurs(emit_spans(cells[j], 0, notes), emit_row(cells, notes)),
{
    lemma_cells_keep_text(cells, 0, j, notes);
    lemma_occurs_inside(emit_spans(cells[j], 0, notes), "  "@, emit_cells(cells, 0, notes), "\n"@);
}

proof fn lemma_rows_keep_text(
    rows: Seq<Seq<Seq<SpanView>>>,
    k: int,
    r: int,
    c: int,
    notes: Seq<FootnoteView>,
)
    requires
        0 <= k <= r < rows.len(),
        0 <= c < rows[r].len(),
    ensures
        occurs(emit_spans(rows[r][c], 0, notes), emit_rows(rows, k, notes)),
    decreases r - k,
{
    let cell = emit_spans(rows[r][c], 0, notes);
    let row = emit_row(rows[k], notes);
    let rest = emit_rows(rows, k + 1, notes);
    if r == k {
        lemma_row_keeps_text(rows[k], c, notes);
        lemma_occurs_inside(cell, Seq::empty(), row, rest);
        assert(emit_rows(rows, k, notes) =~= Seq::<char>::empty() + row + rest);
    } else {
        lemma_rows_keep_text(rows, k + 1, r, c, notes);
        lemma_occurs_inside(cell, row, rest, Seq::empty());
        assert(emit_rows(rows, k, notes) =~= row + rest + Seq::<char>::empty());
    }
}

/// No cell of a table is lost: the text of every cell, of the header and
/// of the body, stands in the text of the table.
pub proof fn lemma_table_keeps_cells(tv: TableView, notes: Seq<FootnoteView>)
    ensures
        forall|c: int|
            0 <= c < tv.header.len() ==> occurs(
                emit_spans(#[trigger] tv.header[c], 0, notes),
                emit_table(tv, notes),
            ),
        forall|r: int, c: int|
            #![trigger tv.rows[r][c]]
            0 <= r < tv.rows.len() && 0 <= c < tv.rows[r].len() ==> occurs(
                emit_spans(tv.rows[r][c], 0, notes),
                emit_table(tv, notes),
            ),
{
    let head = "#table(\n  columns: "@ + decimal(tv.aligns.len()) + ",\n  align: ("@ + emit_aligns(
        tv.aligns,
        0,
    ) + "),\n"@;
    let header = emit_row(tv.header, notes);
    let body = emit_rows(tv.rows, 0, notes);
    assert forall|c: int| 0 <= c < tv.header.len() implies occurs(
        emit_spans(#[trigger] tv.header[c], 0, notes),
        emit_table(tv, notes),
    ) by {
        lemma_row_keeps_text(tv.header, c, notes);
        lemma_occurs_inside(emit_spans(tv.header[c], 0, notes), head, header, body + ")\n"@);
        assert(emit_table(tv, notes) =~= head + header + (body + ")\n"@));
    }
    assert forall|r: int, c: int|
        #![trigger tv.rows[r][c]]
        0 <= r < tv.rows.len() && 0 <= c < tv.rows[r].len() implies occurs(
        emit_spans(tv.rows[r][c], 0, notes),
        emit_table(tv, notes),
    ) by {
        lemma_rows_keep_text(tv.rows, 0, r, c, notes);
        lemma_occurs_inside(emit_spans(tv.rows[r][c], 0, notes), head + header, body, ")\n"@);
        assert(emit_table(tv, notes) =~= (head + header) + body + ")\n"@);
    }
}

proof fn lemma_items_keep_text(
    items: Seq<ListItemView>,
    k: int,
    j: int,
    notes: Seq<FootnoteView>,
)
    requires
        0 <= k <= j < items.len(),
    ensures
        occurs(emit_spans(items[j].content, 0, notes), emit_items(items, k, notes)),
    decreases j - k,
{
    let text = emit_spans(items[j].content, 0, notes);
    let line = emit_item(items[k], notes);
    let rest = emit_items(items, k + 1, notes);
    if j == k {
        let front = repeat(' ', 2 * items[k].depth) + (if items[k].ordered {
            items[k].number + ". "@
        } else {
            "- "@
        }) + task_text(items[k].task);
        lemma_occurs_self(text);
        lemma_occurs_inside(text, front, text, "\n"@ + rest);
        assert(emit_items(items, k, notes) =~= front + text + ("\n"@ + rest));
    } else {
        lemma_items_keep_text(items, k + 1, j, notes);
        lemma_occurs_inside(text, line, rest, Seq::empty());
        assert(emit_items(items, k, notes) =~= line + rest + Seq::<char>::empty());
    }
}

/// No item of a list is lost: the text of every item stands in the text
/// of the list.
pub proof fn lemma_list_keeps_items(items: Seq<ListItemView>, notes: Seq<FootnoteView>)
    ensures
        forall|j: int|
            0 <= j < items.len() ==> occurs(
                emit_spans((#[trigger] items[j]).content, 0, notes),
                emit_items(items, 0, notes),
            ),
{
    assert forall|j: int| 0 <= j < items.len() implies occurs(
        emit_spans((#[trigger] items[j]).content, 0, notes),
        emit_items(items, 0, notes),
    ) by {
        lemma_items_keep_text(items, 0, j, notes);
    }
}

/// An ordered item is rendered with the number that it has.
pub proof fn lemma_ordered_item_keeps_number(item: ListItemView, notes: Seq<FootnoteView>)
    requires
        item.ordered,
    ensures
        occurs(item.number + ". "@, emit_item(item, notes)),
{
    let mark = item.number + ". "@;
    let tail = task_text(item.task) + emit_spans(item.content, 0, notes) + "\n"@;
    lemma_occurs_self(mark);
    lemma_occurs_inside(mark, repeat(' ', 2 * item.depth), mark, tail);
    assert(emit_item(item, notes) =~= repeat(' ', 2 * item.depth) + mark + tail);
}

/// A checked and an unchecked task item that agree in everything else are
/// rendered differently.
pub proof fn lemma_task_states_differ(item: ListItemView, notes: Seq<FootnoteView>)
    ensures
        emit_item(ListItemView { task: Some(TaskState::Checked), ..item }, notes) != emit_item(
            ListItemView { task: Some(TaskState::Unchecked), ..item },
            notes,
        ),
{
    reveal_strlit("[x] ");
    reveal_strlit("[ ] ");
    let a = ListItemView { task: Some(TaskState::Checked), ..item };
    let b = ListItemView { task: Some(TaskState::Unchecked), ..item };
    let front = repeat(' ', 2 * item.depth) + (if item.ordered {
        item.number + ". "@
    } else {
        "- "@
    });
    let k = front.len() as int + 1;
    assert(emit_item(a, notes)[k] == 'x');
    assert(emit_item(b, notes)[k] == ' ');
}

fn digit(d: usize) -> (c: char)
    requires
        d < 10,
    ensures
        c == digit_char(d as int),
{
    if d == 0 {
        '0'
    } else if d == 1 {
        '1'
    } else if d == 2 {
        '2'
    } else if d == 3 {
        '3'
    } else if d == 4 {
        '4'
    } else if d == 5 {
        '5'
    } else if d == 6 {
        '6'
    } else if d == 7 {
        '7'
    } else if d == 8 {
        '8'
    } else {
        '9'
    }
}

/// Appends the decimal numeral of `n`.
pub fn push_decimal(out: &mut Vec<char>, n: usize)
    ensures
        final(out)@ == old(out)@ + decimal(n as nat),
    decreases n,
{
    if n >= 10 {
        push_decimal(out, n / 10);
    }
    out.push(digit(n % 10));
}

fn push_repeat(out: &mut Vec<char>, c: char, n: usize)
    ensures
        final(out)@ == old(out)@ + repeat(c, n as nat),
{
    let mut k: usize = 0;
    while k < n
        invariant
            k <= n,
            out@ == old(out)@ + repeat(c, k as nat),
        decreases n - k,
    {
        out.push(c);
        k = k + 1;
    }
}

fn push_indent(out: &mut Vec<char>, depth: usize)
    ensures
        final(out)@ == old(out)@ + repeat(' ', 2 * (depth as nat)),
{
    let mut k: usize = 0;
    while k < depth
        invariant
            k <= depth,
            out@ == old(out)@ + repeat(' ', 2 * (k as nat)),
        decreases depth - k,
    {
        out.push(' ');
        out.push(' ');
        k = k + 1;
    }
}

fn find_mark(notes: &Vec<Footnote>, id: &Vec<char>) -> (r: Option<usize>)
    ensures
        match r {
            Some(j) => index_from(note_ids(views(notes@)), id@, 0) == Some(j as int) && j
                < notes.len(),
            None => index_from(note_ids(views(notes@)), id@, 0) is None,
        },
{
    let mut k: usize = 0;
    while k < notes.len()
        invariant
            k <= notes.len(),
            index_from(note_ids(views(notes@)), id@, 0) == index_from(
                note_ids(views(notes@)),
                id@,
                k as int,
            ),
        decreases notes.len() - k,
    {
        if same_text(&notes[k].id, id) {
            return Some(k);
        }
        k = k + 1;
    }
    None
}

fn push_wrapped(
    out: &mut Vec<char>,
    open: &str,
    children: &Vec<InlineSpan>,
    notes: &Vec<Footnote>,
)
    ensures
        final(out)@ == old(out)@ + (open@ + emit_spans(spans_view(children@), 0, views(notes@))
            + "]"@),
    decreases children, 1int,
{
    push_str(out, open);
    push_spans(out, children, notes);
    push_str(out, "]");
}

/// Appends the Typst text of a span.
pub fn push_span(out: &mut Vec<char>, sp: &InlineSpan, notes: &Vec<Footnote>)
    ensures
        final(out)@ == old(out)@ + emit_span(sp@, views(notes@)),
    decreases sp, 0int,
{
    match sp {
        InlineSpan::Text(s) => {
            push_all(out, s);
        },
        InlineSpan::Emphasis(ch) => {
            push_wrapped(out, "#emph[", ch, notes);
        },
        InlineSpan::Strong(ch) => {
            push_wrapped(out, "#strong[", ch, notes);
        },
        InlineSpan::Strike(ch) => {
            push_wrapped(out, "#strike[", ch, notes);
        },
        InlineSpan::InlineCode(s) => {
            push_str(out, "`");
            push_all(out, s);
            push_str(out, "`");
        },
        InlineSpan::FootnoteRef(id) => {
            push_str(out, "#super[");
            match find_mark(notes, id) {
                Some(k) => {
                    push_decimal(out, k + 1);
                },
                None => {
                    push_all(out, id);
                },
            }
            push_str(out, "]");
        },
        InlineSpan::LineBreak => {
            push_str(out, "\\\n");
        },
    }
}

/// Appends the Typst text of a sequence of spans.
pub fn push_spans(out: &mut Vec<char>, spans: &Vec<InlineSpan>, notes: &Vec<Footnote>)
    ensures
        final(out)@ == old(out)@ + emit_spans(spans_view(spans@), 0, views(notes@)),
    decreases spans, 0int,
{
    let mut k: usize = 0;
    while k < spans.len()
        invariant
            k <= spans.len(),
            old(out)@ + emit_spans(spans_view(spans@), 0, views(notes@)) == out@ + emit_spans(
                spans_view(spans@),
                k as int,
                views(notes@),
            ),
        decreases spans.len() - k,
    {
        push_span(out, &spans[k], notes);
        k = k + 1;
    }
}

fn push_item(out: &mut Vec<char>, item: &ListItem, notes: &Vec<Footnote>)
    ensures
        final(out)@ == old(out)@ + emit_item(item@, views(notes@)),
{
    push_indent(out, item.depth);
    if item.ordered {
        push_all(out, &item.number);
        push_str(out, ". ");
    } else {
        push_str(out, "- ");
    }
    match item.task {
        Some(TaskState::Checked) => {
            push_str(out, "[x] ");
        },
        Some(TaskState::Unchecked) => {
            push_str(out, "[ ] ");
        },
        None => {},
    }
    push_spans(out, &item.content, notes);
    push_str(out, "\n");
}

fn push_items(out: &mut Vec<char>, items: &Vec<ListItem>, notes: &Vec<Footnote>)
    ensures
        final(out)@ == old(out)@ + emit_items(views(items@), 0, views(notes@)),
{
    let mut k: usize = 0;
    while k < items.len()
        invariant
            k <= items.len(),
            old(out)@ + emit_items(views(items@), 0, views(notes@)) == out@ + emit_items(
                views(items@),
                k as int,
                views(notes@),
            ),
        decreases items.len() - k,
    {
        push_item(out, &items[k], notes);
        k = k + 1;
    }
}

fn push_aligns(out: &mut Vec<char>, aligns: &Vec<Alignment>)
    ensures
        final(out)@ == old(out)@ + emit_aligns(aligns@, 0),
{
    let mut k: usize = 0;
    while k < aligns.len()
        invariant
            k <= aligns.len(),
            old(out)@ + emit_aligns(aligns@, 0) == out@ + emit_aligns(aligns@, k as int),
        decreases aligns.len() - k,
    {
        if k > 0 {
            push_str(out, " ");
        }
        match aligns[k] {
            Alignment::Left => {
                push_str(out, "left");
            },
            Alignment::Center => {
                push_str(out, "center");
            },
            Alignment::Right => {
                push_str(out, "right");
            },
            Alignment::Unset => {
                push_str(out, "auto");
            },
        }
        push_str(out, ",");
        k = k + 1;
    }
}

fn push_row(out: &mut Vec<char>, cells: &Vec<Vec<InlineSpan>>, notes: &Vec<Footnote>)
    ensures
        final(out)@ == old(out)@ + emit_row(cells_view(cells@), views(notes@)),
{
    push_str(out, "  ");
    let ghost start = out@;
    let mut k: usize = 0;
    while k < cells.len()
        invariant
            k <= cells.len(),
            start == old(out)@ + "  "@,
            start + emit_cells(cells_view(cells@), 0, views(notes@)) == out@ + emit_cells(
                cells_view(cells@),
                k as int,
                views(notes@),
            ),
        decreases cells.len() - k,
    {
        if k > 0 {
            push_str(out, " ");
        }
        push_str(out, "[");
        push_spans(out, &cells[k], notes);
        push_str(out, "],");
        k = k + 1;
    }
    push_str(out, "\n");
}

fn push_rows(out: &mut Vec<char>, rows: &Vec<Vec<Vec<InlineSpan>>>, notes: &Vec<Footnote>)
    ensures
        final(out)@ == old(out)@ + emit_rows(rows_view(rows@), 0, views(notes@)),
{
    let mut k: usize = 0;
    while k < rows.len()
        invariant
            k <= rows.len(),
            old(out)@ + emit_rows(rows_view(rows@), 0, views(notes@)) == out@ + emit_rows(
                rows_view(rows@),
                k as int,
                views(notes@),
            ),
        decreases rows.len() - k,
    {
        push_row(out, &rows[k], notes);
        k = k + 1;
    }
}

fn push_table(out: &mut Vec<char>, table: &Table, notes: &Vec<Footnote>)
    ensures
        final(out)@ == old(out)@ + emit_table(table@, views(notes@)),
{
    push_str(out, "#table(\n  columns: ");
    push_decimal(out, table.aligns.len());
    push_str(out, ",\n  align: (");
    push_aligns(out, &table.aligns);
    push_str(out, "),\n");
    push_row(out, &table.header, notes);
    push_rows(out, &table.rows, notes);
    push_str(out, ")\n");
}

/// Appends the Typst text of a block.
pub fn push_block(out: &mut Vec<char>, block: &Block, notes: &Vec<Footnote>)
    ensures
        final(out)@ == old(out)@ + emit_block(block@, views(notes@)),
{
    match block {
        Block::Heading { level, content } => {
            push_repeat(out, '=', *level as usize);
            push_str(out, " ");
            push_spans(out, content, notes);
            push_str(out, "\n");
        },
        Block::Paragraph(content) => {
            push_spans(out, content, notes);
            push_str(out, "\n");
        },
        Block::List { items, .. } => {
            push_items(out, items, notes);
        },
        Block::CodeBlock { lang, raw } => {
            push_str(out, "```");
            match lang {
                Some(s) => {
                    push_all(out, s);
                },
                None => {},
            }
            push_str(out, "\n");
            push_all(out, raw);
            if raw.len() > 0 && raw[raw.len() - 1] != '\n' {
                push_str(out, "\n");
            }
            push_str(out, "```\n");
        },
        Block::BlockQuote(content) => {
            push_str(out, "#quote[");
            push_spans(out, content, notes);
            push_str(out, "]\n");
        },
        Block::Table(table) => {
            push_table(out, table, notes);
        },
        Block::FootnoteDefinition { .. } => {},
        Block::ThematicBreak => {
            push_str(out, "#line(length: 100%)\n");
        },
        Block::Blank => {},
    }
}

fn push_note(out: &mut Vec<char>, notes: &Vec<Footnote>, k: usize, lead: bool)
    requires
        k < notes.len(),
    ensures
        final(out)@ == old(out)@ + emit_note(views(notes@), k as int, lead),
{
    if lead || k > 0 {
        push_str(out, "\n");
    }
    push_str(out, "#super[");
    push_decimal(out, k + 1);
    push_str(out, "] ");
    push_spans(out, &notes[k].content, notes);
    push_str(out, "\n");
}

fn shows(block: &Block) -> (r: bool)
    ensures
        r == is_visible(block@),
{
    match block {
        Block::FootnoteDefinition { .. } => false,
        Block::Blank => false,
        _ => true,
    }
}

/// Renders a document as Typst source text, held as characters.
pub fn emit_chars(doc: &Document) -> (out: Vec<char>)
    ensures
        out@ == emit_doc(doc@),
{
    let mut out: Vec<char> = Vec::new();
    let ghost bv = views(doc.blocks@);
    let ghost nv = views(doc.footnotes@);
    let mut started = false;
    let mut k: usize = 0;
    while k < doc.blocks.len()
        invariant
            k <= doc.blocks.len(),
            bv == views(doc.blocks@),
            nv == views(doc.footnotes@),
            started == visible_before(bv, k as int),
            emit_blocks(bv, 0, nv) == out@ + emit_blocks(bv, k as int, nv),
        decreases doc.blocks.len() - k,
    {
        if shows(&doc.blocks[k]) {
            if started {
                push_str(&mut out, "\n");
            }
            push_block(&mut out, &doc.blocks[k], &doc.footnotes);
            started = true;
        }
        k = k + 1;
    }
    let ghost body = out@;
    let mut j: usize = 0;
    while j < doc.footnotes.len()
        invariant
            j <= doc.footnotes.len(),
            nv == views(doc.footnotes@),
            body + emit_notes(nv, 0, started) == out@ + emit_notes(nv, j as int, started),
        decreases doc.footnotes.len() - j,
    {
        push_note(&mut out, &doc.footnotes, j, started);
        j = j + 1;
    }
    out
}

/// Renders a document as Typst source text: one construct for each kind of
/// block and span, the footnotes after the body.
pub fn emit(doc: &Document) -> (r: String)
    ensures
        r@ == emit_doc(doc@),
{
    let out = emit_chars(doc);
    to_string(&out)
}

} // verus!
