//! The stages of the translator, each on its own.

use md2typ::emit::emit;
use md2typ::footnote::{collect, reference_order};
use md2typ::inline::{parse_inline, InlineSpan};
use md2typ::model::{Alignment, Block, Document, Footnote, ListItem, Table, TaskState};
use md2typ::scan::scan_blocks;
use md2typ::text::{to_chars, to_string};

fn chars(s: &str) -> Vec<char> {
    s.chars().collect()
}

fn text(s: &str) -> InlineSpan {
    InlineSpan::Text(chars(s))
}

#[test]
fn text_goes_in_and_out_unchanged() {
    let s = "a\u{e9}\u{1F600}\n\t";
    assert_eq!(to_chars(s), chars(s));
    assert_eq!(to_string(&chars(s)), s);
}

#[test]
fn inline_spans_of_a_line() {
    assert_eq!(
        parse_inline("a *b* `c` [^d]"),
        vec![
            text("a "),
            InlineSpan::Emphasis(vec![text("b")]),
            text(" "),
            InlineSpan::InlineCode(chars("c")),
            text(" "),
            InlineSpan::FootnoteRef(chars("d")),
        ]
    );
}

#[test]
fn inline_spans_nest() {
    assert_eq!(
        parse_inline("**a ~~b~~**"),
        vec![InlineSpan::Strong(vec![
            text("a "),
            InlineSpan::Strike(vec![text("b")]),
        ])]
    );
}

#[test]
fn unmatched_delimiter_is_text() {
    assert_eq!(parse_inline("*a"), vec![text("*"), text("a")]);
    assert_eq!(parse_inline("``a`"), vec![text("``"), text("a"), text("`")]);
}

#[test]
fn line_break_is_a_span() {
    assert_eq!(
        parse_inline("a  \nb"),
        vec![text("a"), InlineSpan::LineBreak, text("b")]
    );
}

#[test]
fn blocks_of_a_document() {
    let blocks = scan_blocks(&chars("# H\n\npara\n\n---\n\n[^a]: note\n"));
    assert_eq!(
        blocks,
        vec![
            Block::Heading { level: 1, content: vec![text("H")] },
            Block::Paragraph(vec![text("para")]),
            Block::ThematicBreak,
            Block::FootnoteDefinition { id: chars("a"), content: vec![text("note")] },
        ]
    );
}

#[test]
fn code_block_keeps_tag_and_text() {
    let blocks = scan_blocks(&chars("```rust\nlet x;\n```\n"));
    assert_eq!(
        blocks,
        vec![Block::CodeBlock { lang: Some(chars("rust")), raw: chars("let x;\n") }]
    );
    let blocks = scan_blocks(&chars("```\nopen"));
    assert_eq!(blocks, vec![Block::CodeBlock { lang: None, raw: chars("open") }]);
}

#[test]
fn list_items_carry_depth_and_task() {
    let blocks = scan_blocks(&chars("1. a\n   - [x] b\n2. c"));
    assert_eq!(
        blocks,
        vec![Block::List {
            ordered: true,
            items: vec![
                ListItem {
                    depth: 0,
                    ordered: true,
                    number: chars("1"),
                    task: None,
                    content: vec![text("a")],
                },
                ListItem {
                    depth: 1,
                    ordered: false,
                    number: vec![],
                    task: Some(TaskState::Checked),
                    content: vec![text("b")],
                },
                ListItem {
                    depth: 0,
                    ordered: true,
                    number: chars("2"),
                    task: None,
                    content: vec![text("c")],
                },
            ],
        }]
    );
}

#[test]
fn table_has_one_cell_per_column() {
    let blocks = scan_blocks(&chars("|a|b|c|\n|:-|:-:|-:|\n|1|\n"));
    assert_eq!(
        blocks,
        vec![Block::Table(Table {
            aligns: vec![Alignment::Left, Alignment::Center, Alignment::Right],
            header: vec![vec![text("a")], vec![text("b")], vec![text("c")]],
            rows: vec![vec![vec![text("1")], vec![], vec![]]],
        })]
    );
}

#[test]
fn references_are_listed_once_in_order() {
    let blocks = scan_blocks(&chars("a[^x] *b[^y]* [^x]\n\n- c[^z]\n\n[^q]: d[^w]\n"));
    assert_eq!(reference_order(&blocks), vec![chars("x"), chars("y"), chars("z")]);
}

#[test]
fn collector_takes_definitions_out_of_the_body() {
    let doc = collect(scan_blocks(&chars("[^a]: one\n\nbody[^b][^a]\n\n[^b]: two\n")));
    assert_eq!(
        doc,
        Document {
            blocks: vec![Block::Paragraph(vec![
                text("body"),
                InlineSpan::FootnoteRef(chars("b")),
                InlineSpan::FootnoteRef(chars("a")),
            ])],
            footnotes: vec![
                Footnote { id: chars("b"), content: vec![text("two")] },
                Footnote { id: chars("a"), content: vec![text("one")] },
            ],
        }
    );
}

#[test]
fn emitter_renders_a_hand_made_document() {
    let doc = Document {
        blocks: vec![
            Block::Blank,
            Block::Heading { level: 3, content: vec![text("H")] },
            Block::FootnoteDefinition { id: chars("a"), content: vec![text("hidden")] },
            Block::Paragraph(vec![
                InlineSpan::FootnoteRef(chars("a")),
                InlineSpan::FootnoteRef(chars("none")),
            ]),
        ],
        footnotes: vec![Footnote { id: chars("a"), content: vec![text("n")] }],
    };
    assert_eq!(emit(&doc), "=== H\n\n#super[1]#super[none]\n\n#super[1] n\n");
}

#[test]
fn emitter_renders_nothing_for_an_empty_document() {
    let doc = Document { blocks: vec![], footnotes: vec![] };
    assert_eq!(emit(&doc), "");
}
