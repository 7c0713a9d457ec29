//! The footnote collector: numbers footnotes in the order in which the
//! body first refers to them, and takes their definitions out of the body.

use vstd::prelude::*;
use crate::inline::{copy_spans, spans_view, InlineSpan, SpanView};
use crate::model::{
    cells_view, rows_view, views, Block, BlockView, Document, DocumentView, Footnote,
    FootnoteView, ListItem, ListItemView, Table,
};
use crate::text::{copy_text, same_text};

verus! {

/// The values of a sequence of labels.
pub open spec fn labels_view(v: Seq<Vec<char>>) -> Seq<Seq<char>> {
    Seq::new(v.len(), |k: int| v[k]@)
}

/// The first index at or after `k` at which `id` stands in `ids`.
pub open spec fn index_from(ids: Seq<Seq<char>>, id: Seq<char>, k: int) -> Option<int>
    decreases ids.len() - k,
{
    if 0 <= k < ids.len() {
        if ids[k] == id {
            Some(k)
        } else {
            index_from(ids, id, k + 1)
        }
    } else {
        None
    }
}

/// `acc` with `id` at its end, unless `id` is in it already.
pub open spec fn note_label(acc: Seq<Seq<char>>, id: Seq<char>) -> Seq<Seq<char>> {
    if index_from(acc, id, 0) is Some {
        acc
    } else {
        acc.push(id)
    }
}

/// The labels seen so far, after the references in `sp` are seen.
pub open spec fn span_refs(sp: SpanView, acc: Seq<Seq<char>>) -> Seq<Seq<char>>
    decreases sp, 0int,
{
    match sp {
        SpanView::FootnoteRef(id) => note_label(acc, id),
        SpanView::Emphasis(ch) => spans_refs(ch, 0, acc),
        SpanView::Strong(ch) => spans_refs(ch, 0, acc),
        SpanView::Strike(ch) => spans_refs(ch, 0, acc),
        _ => acc,
    }
}

/// The labels seen so far, after the references in `spans[k..]` are seen,
/// from left to right.
pub open spec fn spans_refs(spans: Seq<SpanView>, k: int, acc: Seq<Seq<char>>) -> Seq<Seq<char>>
    decreases spans, spans.len() - k,
{
    if 0 <= k < spans.len() {
        spans_refs(spans, k + 1, span_refs(spans[k], acc))
    } else {
        acc
    }
}

/// The same for the items of a list.
pub open spec fn items_refs(items: Seq<ListItemView>, k: int, acc: Seq<Seq<char>>) -> Seq<
    Seq<char>,
>
    decreases items.len() - k,
{
    if 0 <= k < items.len() {
        items_refs(items, k + 1, spans_refs(items[k].content, 0, acc))
    } else {
        acc
    }
}

/// The same for the cells of a row.
pub open spec fn cells_refs(cells: Seq<Seq<SpanView>>, k: int, acc: Seq<Seq<char>>) -> Seq<
    Seq<char>,
>
    decreases cells.len() - k,
{
    if 0 <= k < cells.len() {
        cells_refs(cells, k + 1, spans_refs(cells[k], 0, acc))
    } else {
        acc
    }
}

/// The same for the rows of a table.
pub open spec fn rows_refs(rows: Seq<Seq<Seq<SpanView>>>, k: int, acc: Seq<Seq<char>>) -> Seq<
    Seq<char>,
>
    decreases rows.len() - k,
{
    if 0 <= k < rows.len() {
        rows_refs(rows, k + 1, cells_refs(rows[k], 0, acc))
    } else {
        acc
    }
}

/// The labels seen so far, after the references in the block `b` are seen.
/// The text of a footnote definition is no part of the body and does not
/// count.
pub open spec fn block_refs(b: BlockView, acc: Seq<Seq<char>>) -> Seq<Seq<char>> {
    match b {
        BlockView::Heading { content, .. } => spans_refs(content, 0, acc),
        BlockView::Paragraph(content) => spans_refs(content, 0, acc),
        BlockView::BlockQuote(content) => spans_refs(content, 0, acc),
        BlockView::List { items, .. } => items_refs(items, 0, acc),
        BlockView::Table(tv) => rows_refs(tv.rows, 0, cells_refs(tv.header, 0, acc)),
        _ => acc,
    }
}

/// The same for the blocks from index `k` on.
pub open spec fn blocks_refs(blocks: Seq<BlockView>, k: int, acc: Seq<Seq<char>>) -> Seq<
    Seq<char>,
>
    decreases blocks.len() - k,
{
    if 0 <= k < blocks.len() {
        blocks_refs(blocks, k + 1, block_refs(blocks[k], acc))
    } else {
        acc
    }
}

/// The distinct labels that the body refers to, in the order of their
/// first reference.
pub open spec fn ref_order(blocks: Seq<BlockView>) -> Seq<Seq<char>> {
    blocks_refs(blocks, 0, Seq::empty())
}

/// The footnote definitions among `blocks[k..]`, in their order.
pub open spec fn defs_from(blocks: Seq<BlockView>, k: int) -> Seq<FootnoteView>
    decreases blocks.len() - k,
{
    if 0 <= k < blocks.len() {
        match blocks[k] {
            BlockView::FootnoteDefinition { id, content } => seq![
                FootnoteView { id: id, content: content },
            ] + defs_from(blocks, k + 1),
            _ => defs_from(blocks, k + 1),
        }
    } else {
        Seq::empty()
    }
}

/// The blocks among `blocks[k..]` that are no footnote definitions, in
/// their order.
pub open spec fn body_from(blocks: Seq<BlockView>, k: int) -> Seq<BlockView>
    decreases blocks.len() - k,
{
    if 0 <= k < blocks.len() {
        match blocks[k] {
            BlockView::FootnoteDefinition { .. } => body_from(blocks, k + 1),
            _ => seq![blocks[k]] + body_from(blocks, k + 1),
        }
    } else {
        Seq::empty()
    }
}

/// The labels of a sequence of footnotes.
pub open spec fn note_ids(notes: Seq<FootnoteView>) -> Seq<Seq<char>> {
    Seq::new(notes.len(), |k: int| notes[k].id)
}

/// The footnotes that the body refers to and that are defined, in the
/// order of `refs[k..]`. Of several definitions of one label the first
/// counts.
pub open spec fn cited_notes(refs: Seq<Seq<char>>, k: int, defs: Seq<FootnoteView>) -> Seq<
    FootnoteView,
>
    decreases refs.len() - k,
{
    if 0 <= k < refs.len() {
        match index_from(note_ids(defs), refs[k], 0) {
            Some(j) => seq![defs[j]] + cited_notes(refs, k + 1, defs),
            None => cited_notes(refs, k + 1, defs),
        }
    } else {
        Seq::empty()
    }
}

/// The footnotes among `defs[k..]` that the body does not refer to, each
/// label once, in the order of their definitions.
pub open spec fn uncited_notes(defs: Seq<FootnoteView>, k: int, refs: Seq<Seq<char>>) -> Seq<
    FootnoteView,
>
    decreases defs.len() - k,
{
    if 0 <= k < defs.len() {
        if index_from(refs, defs[k].id, 0) is None && index_from(note_ids(defs), defs[k].id, 0)
            == Some(k) {
            seq![defs[k]] + uncited_notes(defs, k + 1, refs)
        } else {
            uncited_notes(defs, k + 1, refs)
        }
    } else {
        Seq::empty()
    }
}

/// The footnotes of a document in the order of their numbers: first those
/// that the body refers to, in the order of first reference, then the
/// defined ones that nothing refers to.
pub open spec fn footnote_table(blocks: Seq<BlockView>) -> Seq<FootnoteView> {
    let refs = ref_order(blocks);
    let defs = defs_from(blocks, 0);
    cited_notes(refs, 0, defs) + uncited_notes(defs, 0, refs)
}

/// The document that a sequence of blocks gives.
pub open spec fn collect_spec(blocks: Seq<BlockView>) -> DocumentView {
    DocumentView { blocks: body_from(blocks, 0), footnotes: footnote_table(blocks) }
}

/// An index that was found is the first at which the label stands.
pub proof fn lemma_index_from(ids: Seq<Seq<char>>, id: Seq<char>, k: int)
    requires
        0 <= k,
    ensures
        match index_from(ids, id, k) {
            Some(j) => k <= j < ids.len() && ids[j] == id && forall|i: int|
                k <= i < j ==> ids[i] != id,
            None => forall|i: int| k <= i < ids.len() ==> ids[i] != id,
        },
    decreases ids.len() - k,
{
    if k < ids.len() && ids[k] != id {
        lemma_index_from(ids, id, k + 1);
    }
}

/// Whether no label stands twice in `ids`.
pub open spec fn distinct(ids: Seq<Seq<char>>) -> bool {
    forall|a: int, b: int| 0 <= a < b < ids.len() ==> #[trigger] ids[a] != #[trigger] ids[b]
}

proof fn lemma_note_label_distinct(acc: Seq<Seq<char>>, id: Seq<char>)
    requires
        distinct(acc),
    ensures
        distinct(note_label(acc, id)),
{
    lemma_index_from(acc, id, 0);
}

proof fn lemma_span_refs_distinct(sp: SpanView, acc: Seq<Seq<char>>)
    requires
        distinct(acc),
    ensures
        distinct(span_refs(sp, acc)),
    decreases sp, 0int,
{
    match sp {
        SpanView::FootnoteRef(id) => lemma_note_label_distinct(acc, id),
        SpanView::Emphasis(ch) => lemma_spans_refs_distinct(ch, 0, acc),
        SpanView::Strong(ch) => lemma_spans_refs_distinct(ch, 0, acc),
        SpanView::Strike(ch) => lemma_spans_refs_distinct(ch, 0, acc),
        _ => {},
    }
}

proof fn lemma_spans_refs_distinct(spans: Seq<SpanView>, k: int, acc: Seq<Seq<char>>)
    requires
        distinct(acc),
    ensures
        distinct(spans_refs(spans, k, acc)),
    decreases spans, spans.len() - k,
{
    if 0 <= k < spans.len() {
        lemma_span_refs_distinct(spans[k], acc);
        lemma_spans_refs_distinct(spans, k + 1, span_refs(spans[k], acc));
    }
}

proof fn lemma_items_refs_distinct(items: Seq<ListItemView>, k: int, acc: Seq<Seq<char>>)
    requires
        distinct(acc),
    ensures
        distinct(items_refs(items, k, acc)),
    decreases items.len() - k,
{
    if 0 <= k < items.len() {
        lemma_spans_refs_distinct(items[k].content, 0, acc);
        lemma_items_refs_distinct(items, k + 1, spans_refs(items[k].content, 0, acc));
    }
}

proof fn lemma_cells_refs_distinct(cells: Seq<Seq<SpanView>>, k: int, acc: Seq<Seq<char>>)
    requires
        distinct(acc),
    ensures
        distinct(cells_refs(cells, k, acc)),
    decreases cells.len() - k,
{
    if 0 <= k < cells.len() {
        lemma_spans_refs_distinct(cells[k], 0, acc);
        lemma_cells_refs_distinct(cells, k + 1, spans_refs(cells[k], 0, acc));
    }
}

proof fn lemma_rows_refs_distinct(rows: Seq<Seq<Seq<SpanView>>>, k: int, acc: Seq<Seq<char>>)
    requires
        distinct(acc),
    ensures
        distinct(rows_refs(rows, k, acc)),
    decreases rows.len() - k,
{
    if 0 <= k < rows.len() {
        lemma_cells_refs_distinct(rows[k], 0, acc);
        lemma_rows_refs_distinct(rows, k + 1, cells_refs(rows[k], 0, acc));
    }
}

proof fn lemma_blocks_refs_distinct(blocks: Seq<BlockView>, k: int, acc: Seq<Seq<char>>)
    requires
        distinct(acc),
    ensures
        distinct(blocks_refs(blocks, k, acc)),
    decreases blocks.len() - k,
{
    if 0 <= k < blocks.len() {
        match blocks[k] {
            BlockView::Heading { content, .. } => lemma_spans_refs_distinct(content, 0, acc),
            BlockView::Paragraph(content) => lemma_spans_refs_distinct(content, 0, acc),
            BlockView::BlockQuote(content) => lemma_spans_refs_distinct(content, 0, acc),
            BlockView::List { items, .. } => lemma_items_refs_distinct(items, 0, acc),
            BlockView::Table(tv) => {
                lemma_cells_refs_distinct(tv.header, 0, acc);
                lemma_rows_refs_distinct(tv.rows, 0, cells_refs(tv.header, 0, acc));
            },
            _ => {},
        }
        lemma_blocks_refs_distinct(blocks, k + 1, block_refs(blocks[k], acc));
    }
}

/// The order of first reference names every label once.
pub proof fn lemma_ref_order_distinct(blocks: Seq<BlockView>)
    ensures
        distinct(ref_order(blocks)),
{
    lemma_blocks_refs_distinct(blocks, 0, Seq::empty());
}

/// Every cited footnote has a label that the body refers to at or after
/// `refs[k]`, and no two of them have the same label.
proof fn lemma_cited_notes(refs: Seq<Seq<char>>, k: int, defs: Seq<FootnoteView>)
    requires
        0 <= k,
        distinct(refs),
    ensures
        ({
            let c = cited_notes(refs, k, defs);
            &&& forall|a: int| 0 <= a < c.len() ==> index_from(refs, (#[trigger] c[a]).id, k) is Some
            &&& distinct(note_ids(c))
        }),
    decreases refs.len() - k,
{
    let c = cited_notes(refs, k, defs);
    if k < refs.len() {
        let rest = cited_notes(refs, k + 1, defs);
        lemma_cited_notes(refs, k + 1, defs);
        lemma_index_from(note_ids(defs), refs[k], 0);
        assert forall|a: int| 0 <= a < rest.len() implies index_from(refs, (#[trigger] rest[a]).id, k)
            is Some && rest[a].id != refs[k] by {
            lemma_index_from(refs, rest[a].id, k + 1);
        }
        match index_from(note_ids(defs), refs[k], 0) {
            Some(j) => {
                assert(defs[j].id == refs[k]);
                assert forall|a: int| 0 <= a < c.len() implies index_from(
                    refs,
                    (#[trigger] c[a]).id,
                    k,
                ) is Some by {
                    if a > 0 {
                        assert(c[a] == rest[a - 1]);
                    }
                }
                assert forall|a: int, b: int| 0 <= a < b < c.len() implies #[trigger] note_ids(
                    c,
                )[a] != #[trigger] note_ids(c)[b] by {
                    assert(c[b] == rest[b - 1]);
                    if a > 0 {
                        assert(c[a] == rest[a - 1]);
                        assert(note_ids(rest)[a - 1] != note_ids(rest)[b - 1]);
                    }
                }
            },
            None => {},
        }
    }
}

/// Every uncited footnote has a label that the body does not refer to and
/// is the first definition of that label, at or after `defs[k]`; no two
/// of them have the same label.
proof fn lemma_uncited_notes(defs: Seq<FootnoteView>, k: int, refs: Seq<Seq<char>>)
    requires
        0 <= k,
    ensures
        ({
            let u = uncited_notes(defs, k, refs);
            &&& forall|a: int|
                0 <= a < u.len() ==> index_from(refs, (#[trigger] u[a]).id, 0) is None
                    && index_from(note_ids(defs), u[a].id, 0) is Some && index_from(
                    note_ids(defs),
                    u[a].id,
                    0,
                )->0 >= k
            &&& distinct(note_ids(u))
        }),
    decreases defs.len() - k,
{
    let u = uncited_notes(defs, k, refs);
    if k < defs.len() {
        let rest = uncited_notes(defs, k + 1, refs);
        lemma_uncited_notes(defs, k + 1, refs);
        if index_from(refs, defs[k].id, 0) is None && index_from(note_ids(defs), defs[k].id, 0)
            == Some(k) {
            assert forall|a: int| 0 <= a < u.len() implies index_from(refs, (#[trigger] u[a]).id, 0)
                is None && index_from(note_ids(defs), u[a].id, 0) is Some && index_from(
                note_ids(defs),
                u[a].id,
                0,
            )->0 >= k by {
                if a > 0 {
                    assert(u[a] == rest[a - 1]);
                }
            }
            assert forall|a: int, b: int| 0 <= a < b < u.len() implies #[trigger] note_ids(u)[a]
                != #[trigger] note_ids(u)[b] by {
                assert(u[b] == rest[b - 1]);
                if a > 0 {
                    assert(u[a] == rest[a - 1]);
                    assert(note_ids(rest)[a - 1] != note_ids(rest)[b - 1]);
                }
            }
        }
    }
}

/// Every footnote has a number of its own: no label stands twice in the
/// footnotes of a document.
pub proof fn lemma_footnote_labels_distinct(blocks: Seq<BlockView>)
    ensures
        distinct(note_ids(footnote_table(blocks))),
{
    let refs = ref_order(blocks);
    let defs = defs_from(blocks, 0);
    let c = cited_notes(refs, 0, defs);
    let u = uncited_notes(defs, 0, refs);
    let all = footnote_table(blocks);
    lemma_ref_order_distinct(blocks);
    lemma_cited_notes(refs, 0, defs);
    lemma_uncited_notes(defs, 0, refs);
    assert forall|a: int, b: int| 0 <= a < b < all.len() implies #[trigger] note_ids(all)[a]
        != #[trigger] note_ids(all)[b] by {
        if b < c.len() {
            assert(all[a] == c[a] && all[b] == c[b]);
            assert(note_ids(c)[a] != note_ids(c)[b]);
        } else if a >= c.len() {
            assert(all[a] == u[a - c.len()] && all[b] == u[b - c.len()]);
            assert(note_ids(u)[a - c.len()] != note_ids(u)[b - c.len()]);
        } else {
            assert(all[a] == c[a] && all[b] == u[b - c.len()]);
        }
    }
}

/// Finds `id` among `ids`.
pub fn find_label(ids: &Vec<Vec<char>>, id: &Vec<char>) -> (r: Option<usize>)
    ensures
        match r {
            Some(j) => index_from(labels_view(ids@), id@, 0) == Some(j as int) && j < ids.len(),
            None => index_from(labels_view(ids@), id@, 0) is None,
        },
{
    let mut k: usize = 0;
    while k < ids.len()
        invariant
            k <= ids.len(),
            index_from(labels_view(ids@), id@, 0) == index_from(labels_view(ids@), id@, k as int),
        decreases ids.len() - k,
    {
        if same_text(&ids[k], id) {
            return Some(k);
        }
        k = k + 1;
    }
    None
}

fn find_note(defs: &Vec<Footnote>, id: &Vec<char>) -> (r: Option<usize>)
    ensures
        match r {
            Some(j) => index_from(note_ids(views(defs@)), id@, 0) == Some(j as int) && j
                < defs.len(),
            None => index_from(note_ids(views(defs@)), id@, 0) is None,
        },
{
    let mut k: usize = 0;
    while k < defs.len()
        invariant
            k <= defs.len(),
            index_from(note_ids(views(defs@)), id@, 0) == index_from(
                note_ids(views(defs@)),
                id@,
                k as int,
            ),
        decreases defs.len() - k,
    {
        if same_text(&defs[k].id, id) {
            return Some(k);
        }
        k = k + 1;
    }
    None
}

fn note_span(sp: &InlineSpan, acc: &mut Vec<Vec<char>>)
    ensures
        labels_view(final(acc)@) == span_refs(sp@, labels_view(old(acc)@)),
    decreases sp,
{
    match sp {
        InlineSpan::FootnoteRef(id) => {
            if find_label(acc, id).is_none() {
                let ghost before = acc@;
                let c = copy_text(id);
                acc.push(c);
                assert(labels_view(acc@) =~= labels_view(before).push(id@));
            }
        },
        InlineSpan::Emphasis(ch) => {
            note_spans(ch, acc);
        },
        InlineSpan::Strong(ch) => {
            note_spans(ch, acc);
        },
        InlineSpan::Strike(ch) => {
            note_spans(ch, acc);
        },
        _ => {},
    }
}

fn note_spans(spans: &Vec<InlineSpan>, acc: &mut Vec<Vec<char>>)
    ensures
        labels_view(final(acc)@) == spans_refs(spans_view(spans@), 0, labels_view(old(acc)@)),
    decreases spans,
{
    let mut k: usize = 0;
    while k < spans.len()
        invariant
            k <= spans.len(),
            spans_refs(spans_view(spans@), 0, labels_view(old(acc)@)) == spans_refs(
                spans_view(spans@),
                k as int,
                labels_view(acc@),
            ),
        decreases spans.len() - k,
    {
        note_span(&spans[k], acc);
        k = k + 1;
    }
}

fn note_items(items: &Vec<ListItem>, acc: &mut Vec<Vec<char>>)
    ensures
        labels_view(final(acc)@) == items_refs(views(items@), 0, labels_view(old(acc)@)),
{
    let mut k: usize = 0;
    while k < items.len()
        invariant
            k <= items.len(),
            items_refs(views(items@), 0, labels_view(old(acc)@)) == items_refs(
                views(items@),
                k as int,
                labels_view(acc@),
            ),
        decreases items.len() - k,
    {
        note_spans(&items[k].content, acc);
        k = k + 1;
    }
}

fn note_cells(cells: &Vec<Vec<InlineSpan>>, acc: &mut Vec<Vec<char>>)
    ensures
        labels_view(final(acc)@) == cells_refs(cells_view(cells@), 0, labels_view(old(acc)@)),
{
    let mut k: usize = 0;
    while k < cells.len()
        invariant
            k <= cells.len(),
            cells_refs(cells_view(cells@), 0, labels_view(old(acc)@)) == cells_refs(
                cells_view(cells@),
                k as int,
                labels_view(acc@),
            ),
        decreases cells.len() - k,
    {
        note_spans(&cells[k], acc);
        k = k + 1;
    }
}

fn note_rows(rows: &Vec<Vec<Vec<InlineSpan>>>, acc: &mut Vec<Vec<char>>)
    ensures
        labels_view(final(acc)@) == rows_refs(rows_view(rows@), 0, labels_view(old(acc)@)),
{
    let mut k: usize = 0;
    while k < rows.len()
        invariant
            k <= rows.len(),
            rows_refs(rows_view(rows@), 0, labels_view(old(acc)@)) == rows_refs(
                rows_view(rows@),
                k as int,
                labels_view(acc@),
            ),
        decreases rows.len() - k,
    {
        note_cells(&rows[k], acc);
        k = k + 1;
    }
}

fn note_block(b: &Block, acc: &mut Vec<Vec<char>>)
    ensures
        labels_view(final(acc)@) == block_refs(b@, labels_view(old(acc)@)),
{
    match b {
        Block::Heading { content, .. } => {
            note_spans(content, acc);
        },
        Block::Paragraph(content) => {
            note_spans(content, acc);
        },
        Block::BlockQuote(content) => {
            note_spans(content, acc);
        },
        Block::List { items, .. } => {
            note_items(items, acc);
        },
        Block::Table(table) => {
            note_cells(&table.header, acc);
            note_rows(&table.rows, acc);
        },
        _ => {},
    }
}

/// Lists the distinct labels that the body of `blocks` refers to, in the
/// order of their first reference.
pub fn reference_order(blocks: &Vec<Block>) -> (refs: Vec<Vec<char>>)
    ensures
        labels_view(refs@) == ref_order(views(blocks@)),
{
    let mut acc: Vec<Vec<char>> = Vec::new();
    let mut k: usize = 0;
    assert(labels_view(acc@) =~= Seq::<Seq<char>>::empty());
    while k < blocks.len()
        invariant
            k <= blocks.len(),
            ref_order(views(blocks@)) == blocks_refs(views(blocks@), k as int, labels_view(acc@)),
        decreases blocks.len() - k,
    {
        note_block(&blocks[k], &mut acc);
        k = k + 1;
    }
    acc
}

/// Parts the blocks into the body and the footnote definitions, each in
/// its order.
fn split_blocks(blocks: Vec<Block>) -> (r: (Vec<Block>, Vec<Footnote>))
    ensures
        views(r.0@) == body_from(views(blocks@), 0),
        views(r.1@) == defs_from(views(blocks@), 0),
{
    let ghost orig = blocks@;
    let ghost ov = views(blocks@);
    let n = blocks.len();
    let mut src = blocks;
    let mut rev: Vec<Block> = Vec::new();
    while src.len() > 0
        invariant
            orig.len() == n,
            src.len() + rev.len() == n,
            forall|k: int| 0 <= k < src.len() ==> src@[k] == orig[k],
            forall|k: int| 0 <= k < rev.len() ==> rev@[k] == orig[n - 1 - k],
        decreases src.len(),
    {
        match src.pop() {
            Some(b) => {
                rev.push(b);
            },
            None => {},
        }
    }
    let mut body: Vec<Block> = Vec::new();
    let mut defs: Vec<Footnote> = Vec::new();
    assert(views(body@) =~= Seq::<BlockView>::empty());
    assert(views(defs@) =~= Seq::<FootnoteView>::empty());
    while rev.len() > 0
        invariant
            orig.len() == n,
            ov == views(orig),
            rev.len() <= n,
            forall|k: int| 0 <= k < rev.len() ==> rev@[k] == orig[n - 1 - k],
            body_from(ov, 0) == views(body@) + body_from(ov, n - rev.len()),
            defs_from(ov, 0) == views(defs@) + defs_from(ov, n - rev.len()),
        decreases rev.len(),
    {
        let ghost k = n - rev.len();
        match rev.pop() {
            Some(b) => {
                assert(b == orig[k]);
                assert(ov[k] == b@);
                match b {
                    Block::FootnoteDefinition { id, content } => {
                        let ghost before = defs@;
                        let note = Footnote { id: id, content: content };
                        let ghost nv = note@;
                        defs.push(note);
                        assert(views(defs@) =~= views(before).push(nv));
                    },
                    other => {
                        let ghost before = body@;
                        let ghost bv = other@;
                        body.push(other);
                        assert(views(body@) =~= views(before).push(bv));
                    },
                }
            },
            None => {},
        }
    }
    (body, defs)
}

fn copy_note(note: &Footnote) -> (r: Footnote)
    ensures
        r@ == note@,
{
    let id = copy_text(&note.id);
    Footnote { id: id, content: copy_spans(&note.content) }
}

/// Puts the footnotes in the order of their numbers.
fn order_notes(refs: &Vec<Vec<char>>, defs: &Vec<Footnote>) -> (out: Vec<Footnote>)
    ensures
        views(out@) == cited_notes(labels_view(refs@), 0, views(defs@)) + uncited_notes(
            views(defs@),
            0,
            labels_view(refs@),
        ),
{
    let ghost rv = labels_view(refs@);
    let ghost dv = views(defs@);
    let mut out: Vec<Footnote> = Vec::new();
    assert(views(out@) =~= Seq::<FootnoteView>::empty());
    let mut k: usize = 0;
    while k < refs.len()
        invariant
            k <= refs.len(),
            rv == labels_view(refs@),
            dv == views(defs@),
            cited_notes(rv, 0, dv) == views(out@) + cited_notes(rv, k as int, dv),
        decreases refs.len() - k,
    {
        match find_note(defs, &refs[k]) {
            Some(j) => {
                let ghost before = out@;
                let note = copy_note(&defs[j]);
                out.push(note);
                assert(views(out@) =~= views(before).push(dv[j as int]));
            },
            None => {},
        }
        k = k + 1;
    }
    let ghost cited = views(out@);
    let mut i: usize = 0;
    while i < defs.len()
        invariant
            i <= defs.len(),
            rv == labels_view(refs@),
            dv == views(defs@),
            cited == cited_notes(rv, 0, dv),
            cited + uncited_notes(dv, 0, rv) == views(out@) + uncited_notes(dv, i as int, rv),
        decreases defs.len() - i,
    {
        let fresh = find_label(refs, &defs[i].id).is_none();
        let first = match find_note(defs, &defs[i].id) {
            Some(j) => j == i,
            None => false,
        };
        if fresh && first {
            let ghost before = out@;
            let note = copy_note(&defs[i]);
            out.push(note);
            assert(views(out@) =~= views(before).push(dv[i as int]));
        }
        i = i + 1;
    }
    out
}

/// Collects the footnotes of a document.
///
/// The footnote definitions leave the body. The footnotes are numbered in
/// the order in which the body first refers to them; a definition that
/// nothing refers to comes after those, and of several definitions of one
/// label the first counts. A reference without a definition gets no
/// number.
pub fn collect(blocks: Vec<Block>) -> (doc: Document)
    ensures
        doc@ == collect_spec(views(blocks@)),
{
    let refs = reference_order(&blocks);
    let (body, defs) = split_blocks(blocks);
    let notes = order_notes(&refs, &defs);
    Document { blocks: body, footnotes: notes }
}

} // verus!
