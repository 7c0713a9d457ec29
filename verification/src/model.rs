//! The document model: blocks, list items, tables and footnotes, each with
//! the mathematical value that the contracts speak of.

use vstd::prelude::*;
use crate::inline::{spans_view, InlineSpan, SpanView};

verus! {

/// The state of the checkbox of a task item.
#[derive(Clone, Copy, Debug, PartialEq, Eq)]
pub enum TaskState {
    Checked,
    Unchecked,
}

/// How a table column is aligned.
#[derive(Clone, Copy, Debug, PartialEq, Eq)]
pub enum Alignment {
    Left,
    Center,
    Right,
    /// The delimiter row gave no alignment.
    Unset,
}

/// One item of a list. A list is kept flat: each item carries its nesting
/// depth, and an item deeper than the one before it is nested in it.
#[derive(Debug, PartialEq, Eq)]
pub struct ListItem {
    /// Nesting depth; 0 for an item of the outermost list.
    pub depth: usize,
    /// Whether the item's marker is a number.
    pub ordered: bool,
    /// The digits of the marker of an ordered item; empty otherwise.
    pub number: Vec<char>,
    /// The checkbox, if the item starts with one.
    pub task: Option<TaskState>,
    /// The text of the item.
    pub content: Vec<InlineSpan>,
}

/// The mathematical value of a [`ListItem`].
pub struct ListItemView {
    pub depth: nat,
    pub ordered: bool,
    pub number: Seq<char>,
    pub task: Option<TaskState>,
    pub content: Seq<SpanView>,
}

impl View for ListItem {
    type V = ListItemView;

    open spec fn view(&self) -> ListItemView {
        ListItemView {
            depth: self.depth as nat,
            ordered: self.ordered,
            number: self.number@,
            task: self.task,
            content: spans_view(self.content@),
        }
    }
}

/// A table: one alignment per column, a header row and body rows, every row
/// with one cell per column.
#[derive(Debug, PartialEq, Eq)]
pub struct Table {
    pub aligns: Vec<Alignment>,
    pub header: Vec<Vec<InlineSpan>>,
    pub rows: Vec<Vec<Vec<InlineSpan>>>,
}

/// The mathematical value of a [`Table`].
pub struct TableView {
    pub aligns: Seq<Alignment>,
    pub header: Seq<Seq<SpanView>>,
    pub rows: Seq<Seq<Seq<SpanView>>>,
}

impl TableView {
    /// A table has at least one column, and every row has a cell for each.
    pub open spec fn wf(self) -> bool {
        &&& self.aligns.len() >= 1
        &&& self.header.len() == self.aligns.len()
        &&& forall|r: int| 0 <= r < self.rows.len() ==> (#[trigger] self.rows[r]).len()
            == self.aligns.len()
    }
}

/// The values of the cells of a row.
pub open spec fn cells_view(v: Seq<Vec<InlineSpan>>) -> Seq<Seq<SpanView>> {
    Seq::new(v.len(), |k: int| spans_view(v[k]@))
}

/// The values of the rows of a table.
pub open spec fn rows_view(v: Seq<Vec<Vec<InlineSpan>>>) -> Seq<Seq<Seq<SpanView>>> {
    Seq::new(v.len(), |k: int| cells_view(v[k]@))
}

impl View for Table {
    type V = TableView;

    open spec fn view(&self) -> TableView {
        TableView {
            aligns: self.aligns@,
            header: cells_view(self.header@),
            rows: rows_view(self.rows@),
        }
    }
}

/// A top-level structural unit of a document.
#[derive(Debug, PartialEq, Eq)]
pub enum Block {
    /// A heading of level 1 to 6.
    Heading { level: u8, content: Vec<InlineSpan> },
    /// A paragraph.
    Paragraph(Vec<InlineSpan>),
    /// A list; `ordered` is the kind of its outermost items.
    List { ordered: bool, items: Vec<ListItem> },
    /// A fenced code block: what followed the opening fence on its line, and
    /// the lines up to the closing fence, both verbatim.
    CodeBlock { lang: Option<Vec<char>>, raw: Vec<char> },
    /// A block quote; its lines are merged with single spaces.
    BlockQuote(Vec<InlineSpan>),
    /// A table.
    Table(Table),
    /// The definition of a footnote. It is collected, not rendered in place.
    FootnoteDefinition { id: Vec<char>, content: Vec<InlineSpan> },
    /// A horizontal rule.
    ThematicBreak,
    /// A separator that renders as nothing.
    Blank,
}

/// The mathematical value of a [`Block`].
pub enum BlockView {
    Heading { level: nat, content: Seq<SpanView> },
    Paragraph(Seq<SpanView>),
    List { ordered: bool, items: Seq<ListItemView> },
    CodeBlock { lang: Option<Seq<char>>, raw: Seq<char> },
    BlockQuote(Seq<SpanView>),
    Table(TableView),
    FootnoteDefinition { id: Seq<char>, content: Seq<SpanView> },
    ThematicBreak,
    Blank,
}

impl BlockView {
    /// A heading has a level from 1 to 6, a list has an item, and a table
    /// is rectangular.
    pub open spec fn wf(self) -> bool {
        match self {
            BlockView::Heading { level, .. } => 1 <= level <= 6,
            BlockView::List { items, .. } => items.len() >= 1,
            BlockView::Table(tv) => tv.wf(),
            _ => true,
        }
    }
}

/// The values of a sequence of items that have one.
pub open spec fn views<T: View>(v: Seq<T>) -> Seq<T::V> {
    Seq::new(v.len(), |k: int| v[k]@)
}

/// The value of an optional text.
pub open spec fn opt_text_view(o: Option<Vec<char>>) -> Option<Seq<char>> {
    match o {
        Some(s) => Some(s@),
        None => None,
    }
}

impl View for Block {
    type V = BlockView;

    open spec fn view(&self) -> BlockView {
        match self {
            Block::Heading { level, content } => BlockView::Heading {
                level: *level as nat,
                content: spans_view(content@),
            },
            Block::Paragraph(content) => BlockView::Paragraph(spans_view(content@)),
            Block::List { ordered, items } => BlockView::List {
                ordered: *ordered,
                items: views(items@),
            },
            Block::CodeBlock { lang, raw } => BlockView::CodeBlock {
                lang: opt_text_view(*lang),
                raw: raw@,
            },
            Block::BlockQuote(content) => BlockView::BlockQuote(spans_view(content@)),
            Block::Table(table) => BlockView::Table(table@),
            Block::FootnoteDefinition { id, content } => BlockView::FootnoteDefinition {
                id: id@,
                content: spans_view(content@),
            },
            Block::ThematicBreak => BlockView::ThematicBreak,
            Block::Blank => BlockView::Blank,
        }
    }
}

/// A footnote: its label and its text.
#[derive(Debug, PartialEq, Eq)]
pub struct Footnote {
    pub id: Vec<char>,
    pub content: Vec<InlineSpan>,
}

/// The mathematical value of a [`Footnote`].
pub struct FootnoteView {
    pub id: Seq<char>,
    pub content: Seq<SpanView>,
}

impl View for Footnote {
    type V = FootnoteView;

    open spec fn view(&self) -> FootnoteView {
        FootnoteView { id: self.id@, content: spans_view(self.content@) }
    }
}

/// A document: the blocks of its body, and its footnotes in the order of
/// their numbers (the footnote at index `k` has number `k + 1`).
#[derive(Debug, PartialEq, Eq)]
pub struct Document {
    pub blocks: Vec<Block>,
    pub footnotes: Vec<Footnote>,
}

/// The mathematical value of a [`Document`].
pub struct DocumentView {
    pub blocks: Seq<BlockView>,
    pub footnotes: Seq<FootnoteView>,
}

impl View for Document {
    type V = DocumentView;

    open spec fn view(&self) -> DocumentView {
        DocumentView { blocks: views(self.blocks@), footnotes: views(self.footnotes@) }
    }
}

} // verus!
