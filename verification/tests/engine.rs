//! Exact outputs of the translator, construct by construct.

use md2typ::translate;

fn typst(md: &str) -> String {
    translate(md, false).expect("every text translates")
}

#[test]
fn plain_text_is_one_paragraph() {
    assert_eq!(typst("plain text"), "plain text\n");
    assert_eq!(typst("plain text\n"), "plain text\n");
    assert_eq!(typst("two lines\nof text\n"), "two lines\nof text\n");
}

#[test]
fn empty_text_gives_empty_output() {
    assert_eq!(typst(""), "");
    assert_eq!(typst("\n\n  \n"), "");
}

#[test]
fn preamble_comes_first_when_asked_for() {
    assert_eq!(
        translate("hello", true),
        Ok("#set page(margin: 2cm)\n#set text(size: 11pt)\n\nhello\n".to_string())
    );
    assert_eq!(translate("hello", false), Ok("hello\n".to_string()));
}

#[test]
fn paragraphs_are_parted_by_an_empty_line() {
    assert_eq!(typst("one\n\n\ntwo\n"), "one\n\ntwo\n");
}

#[test]
fn heading_levels() {
    assert_eq!(typst("# Title"), "= Title\n");
    assert_eq!(typst("## Cap"), "== Cap\n");
    assert_eq!(typst("###### six"), "====== six\n");
    assert_eq!(typst("####### seven"), "####### seven\n");
    assert_eq!(typst("#nospace"), "#nospace\n");
}

#[test]
fn heading_ends_a_paragraph() {
    assert_eq!(typst("text\n# Head\nmore"), "text\n\n= Head\n\nmore\n");
}

#[test]
fn emphasis_strong_and_strike() {
    assert_eq!(typst("*e*"), "#emph[e]\n");
    assert_eq!(typst("_e_"), "#emph[e]\n");
    assert_eq!(typst("**s**"), "#strong[s]\n");
    assert_eq!(typst("__s__"), "#strong[s]\n");
    assert_eq!(typst("~~x~~"), "#strike[x]\n");
    assert_eq!(typst("a *b* c"), "a #emph[b] c\n");
}

#[test]
fn spans_nest() {
    assert_eq!(typst("*a **b** c*"), "#emph[a #strong[b] c]\n");
    assert_eq!(typst("**a*b**"), "#strong[a*b]\n");
    assert_eq!(typst("~~*x*~~"), "#strike[#emph[x]]\n");
}

#[test]
fn unmatched_delimiters_stay_literal() {
    assert_eq!(typst("**unclosed"), "**unclosed\n");
    assert_eq!(typst("a *b"), "a *b\n");
    assert_eq!(typst("~~x"), "~~x\n");
    assert_eq!(typst("a ` b"), "a ` b\n");
    assert_eq!(typst("[^"), "[^\n");
    assert_eq!(typst("x [^] y"), "x [^] y\n");
}

#[test]
fn inline_code_is_verbatim() {
    assert_eq!(typst("`a*b`"), "`a*b`\n");
    assert_eq!(typst("x `**y**` z"), "x `**y**` z\n");
    assert_eq!(typst("``a`b``"), "`a`b`\n");
}

#[test]
fn forced_line_breaks() {
    assert_eq!(typst("a  \nb"), "a\\\nb\n");
    assert_eq!(typst("a\\\nb"), "a\\\nb\n");
}

#[test]
fn fenced_code_is_verbatim() {
    assert_eq!(
        typst("```rust\nfn main() { *x* }\n```\n"),
        "```rust\nfn main() { *x* }\n```\n"
    );
    assert_eq!(typst("```\n# not a heading\n\n- no list\n```"), "```\n# not a heading\n\n- no list\n```\n");
}

#[test]
fn unterminated_fence_is_closed_at_the_end() {
    assert_eq!(typst("```\ncode"), "```\ncode\n```\n");
    assert_eq!(typst("before\n```py\nx = 1\n"), "before\n\n```py\nx = 1\n```\n");
    assert_eq!(typst("```"), "```\n```\n");
}

#[test]
fn block_quote_lines_are_merged() {
    assert_eq!(typst("> a\n> b"), "#quote[a b]\n");
    assert_eq!(typst(">a\n>  b"), "#quote[a  b]\n");
    assert_eq!(typst("> *q*\ntext"), "#quote[#emph[q]]\n\ntext\n");
}

#[test]
fn thematic_breaks() {
    assert_eq!(typst("---"), "#line(length: 100%)\n");
    assert_eq!(typst("***"), "#line(length: 100%)\n");
    assert_eq!(typst(" ___ "), "#line(length: 100%)\n");
    assert_eq!(typst("--"), "--\n");
}

#[test]
fn nested_list() {
    assert_eq!(typst("- a\n  - nested\n- b"), "- a\n  - nested\n- b\n");
}

#[test]
fn indentation_unit_is_taken_from_the_first_nested_item() {
    assert_eq!(
        typst("- a\n    - b\n        - c\n    - d\n"),
        "- a\n  - b\n    - c\n  - d\n"
    );
}

#[test]
fn ordered_list_keeps_its_numbers() {
    assert_eq!(typst("1. one\n2. two"), "1. one\n2. two\n");
    assert_eq!(typst("7) seven\n9) nine"), "7. seven\n9. nine\n");
}

#[test]
fn task_items_keep_their_state() {
    assert_eq!(typst("- [ ] X\n- [x] Y\n- [X] Z"), "- [ ] X\n- [x] Y\n- [x] Z\n");
    assert_eq!(typst("- [y] no box"), "- [y] no box\n");
}

#[test]
fn blank_lines_inside_a_list_are_passed_over() {
    assert_eq!(typst("- a\n\n- b\n\ntext"), "- a\n- b\n\ntext\n");
}

#[test]
fn lists_of_two_kinds_are_two_lists() {
    assert_eq!(typst("- a\n1. b"), "- a\n\n1. b\n");
}

#[test]
fn table_with_alignment() {
    assert_eq!(
        typst("| ColA | ColB |\n|------|:----:|\n| x    |  y   |\n"),
        "#table(\n  columns: 2,\n  align: (auto, center,),\n  [ColA], [ColB],\n  [x], [y],\n)\n"
    );
}

#[test]
fn table_rows_are_padded_and_cut() {
    assert_eq!(
        typst("a | b\n:-- | --:\n1 |\n1 | 2 | 3\n\nafter"),
        "#table(\n  columns: 2,\n  align: (left, right,),\n  [a], [b],\n  [1], [],\n  [1], [2],\n)\n\nafter\n"
    );
}

#[test]
fn line_without_separator_ends_a_table() {
    assert_eq!(
        typst("a | b\n--- | ---\nplain\n"),
        "#table(\n  columns: 2,\n  align: (auto, auto,),\n  [a], [b],\n)\n\nplain\n"
    );
}

#[test]
fn tab_separated_table() {
    assert_eq!(
        typst("a\tb\n---\t---\n*c*\td"),
        "#table(\n  columns: 2,\n  align: (auto, auto,),\n  [a], [b],\n  [#emph[c]], [d],\n)\n"
    );
}

#[test]
fn line_with_separator_but_no_delimiter_row_is_text() {
    assert_eq!(typst("a | b\nc | d"), "a | b\nc | d\n");
}

#[test]
fn footnote_is_numbered_and_listed() {
    assert_eq!(
        typst("text.[^1]\n\n[^1]: Note.\n"),
        "text.#super[1]\n\n#super[1] Note.\n"
    );
}

#[test]
fn footnotes_are_numbered_by_first_reference() {
    assert_eq!(
        typst("A[^b] B[^a] C[^b]\n\n[^a]: first\n[^b]: second"),
        "A#super[1] B#super[2] C#super[1]\n\n#super[1] second\n\n#super[2] first\n"
    );
}

#[test]
fn reference_may_come_after_its_definition() {
    assert_eq!(typst("[^n]: Note.\n\nSee[^n]."), "See#super[1].\n\n#super[1] Note.\n");
}

#[test]
fn reference_without_definition_shows_its_label() {
    assert_eq!(typst("x[^z]"), "x#super[z]\n");
}

#[test]
fn definition_without_reference_is_kept() {
    assert_eq!(typst("[^n]: lonely"), "#super[1] lonely\n");
    assert_eq!(
        typst("a[^x]\n\n[^y]: why\n[^x]: ex\n[^y]: again"),
        "a#super[1]\n\n#super[1] ex\n\n#super[2] why\n"
    );
}

#[test]
fn more_than_nine_footnotes() {
    let mut md = String::new();
    for k in 0..11 {
        md.push_str(&format!("[^n{}]", k));
    }
    md.push_str("\n\n");
    for k in 0..11 {
        md.push_str(&format!("[^n{}]: t{}\n", k, k));
    }
    let got = typst(&md);
    assert!(got.starts_with("#super[1]#super[2]"));
    assert!(got.contains("#super[10]#super[11]\n"));
    assert!(got.ends_with("\n#super[11] t10\n"));
}

#[test]
fn error_has_a_message() {
    assert_eq!(md2typ::TranslateError::Internal.message(), "internal translator error");
}
