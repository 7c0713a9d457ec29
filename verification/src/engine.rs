//! The translation engine: scanner, collector and emitter in a row.

use vstd::prelude::*;
use crate::emit::{
    emit_block, emit_blocks, emit_chars, emit_doc, emit_notes, emit_span, emit_spans, fence_gap,
    is_visible, opt_text, visible_before,
};
use crate::footnote::{
    block_refs, blocks_refs, body_from, cited_notes, collect, collect_spec, defs_from,
    footnote_table, ref_order, span_refs, spans_refs, uncited_notes,
};
use crate::inline::{
    lemma_find_run, lemma_plain_end, opens_span, parse_spans, plain_end, span_shape, Shape,
    SpanKind, SpanView,
};
use crate::model::{BlockView, DocumentView, FootnoteView};
use crate::scan::{
    block_at, fence_stop, heading_level, is_fence_open, lemma_fence_stop, lemma_para_end,
    para_end, scan_blocks, scan_from, scan_spec, starts_block,
};
use crate::text::{
    is_blank_line, lemma_next_line, lemma_run_end, line_end, next_line, push_all, push_str,
    run_end, to_chars, to_string, CharClass,
};

verus! {

/// Why a translation failed. No text makes the translator fail: the only
/// variant is kept for conditions inside the translator itself, and the
/// contract of [`translate`] shows that it is never returned.
#[derive(Clone, Copy, Debug, PartialEq, Eq)]
pub enum TranslateError {
    /// The translator found its own state inconsistent.
    Internal,
}

impl TranslateError {
    /// A description of the error.
    pub fn message(&self) -> (r: String)
        ensures
            r@ == "internal translator error"@,
    {
        "internal translator error".to_owned()
    }
}

/// The setup block that a translation starts with on request.
pub open spec fn preamble_text() -> Seq<char> {
    "#set page(margin: 2cm)\n#set text(size: 11pt)\n\n"@
}

/// The Typst text of the Markdown text `md`, before sanitizing.
pub open spec fn translate_spec(md: Seq<char>, want_preamble: bool) -> Seq<char> {
    (if want_preamble {
        preamble_text()
    } else {
        Seq::empty()
    }) + emit_doc(collect_spec(scan_spec(md)))
}

/// Translates a Markdown text held as characters.
pub fn translate_chars(md: &Vec<char>, want_preamble: bool) -> (out: Vec<char>)
    ensures
        out@ == translate_spec(md@, want_preamble),
{
    let blocks = scan_blocks(md);
    let doc = collect(blocks);
    let body = emit_chars(&doc);
    let mut out: Vec<char> = Vec::new();
    if want_preamble {
        push_str(&mut out, "#set page(margin: 2cm)\n#set text(size: 11pt)\n\n");
    }
    push_all(&mut out, &body);
    out
}

/// Translates Markdown into Typst markup.
///
/// The text must have its line ends normalised to line feeds. Every text
/// translates: a construct that is not closed or not well-formed stays in
/// the output as literal text. The result is not sanitized yet; see
/// [`crate::sanitize::sanitize_text`].
pub fn translate(markdown_text: &str, want_preamble: bool) -> (r: Result<String, TranslateError>)
    ensures
        r matches Ok(s) && s@ == translate_spec(markdown_text@, want_preamble),
{
    let md = to_chars(markdown_text);
    let out = translate_chars(&md, want_preamble);
    Ok(to_string(&out))
}

/// Whether a line starts at `p`.
pub open spec fn is_line_start(t: Seq<char>, p: int) -> bool {
    0 <= p < t.len() && (p == 0 || t[p - 1] == '\n')
}

/// The end of `t` without the line feed that may end its last line.
pub open spec fn body_end(t: Seq<char>) -> int {
    if t.len() > 0 && t[t.len() - 1] == '\n' {
        t.len() - 1
    } else {
        t.len() as int
    }
}

/// Whether `t` is text without any Markdown syntax: it is not empty, none
/// of its lines is blank or starts a block other than a paragraph, and no
/// inline construct may open anywhere in it.
pub open spec fn no_markdown(t: Seq<char>) -> bool {
    &&& t.len() > 0
    &&& forall|p: int| #[trigger]
        is_line_start(t, p) ==> !is_blank_line(t, p, line_end(t, p)) && !starts_block(
            t,
            p,
            line_end(t, p),
        )
    &&& forall|i: int| 0 <= i < body_end(t) ==> !#[trigger] opens_span(t, i, body_end(t))
}

/// A paragraph of plain lines runs to the end of the text.
proof fn lemma_plain_para_end(t: Seq<char>, p: int)
    requires
        no_markdown(t),
        is_line_start(t, p),
    ensures
        p < line_end(t, p),
        para_end(t, line_end(t, p)) == body_end(t),
    decreases t.len() - p,
{
    let e = line_end(t, p);
    lemma_run_end(t, CharClass::Line, p, t.len() as int);
    lemma_run_end(t, CharClass::Blank, p, e);
    if e < t.len() {
        let q = e + 1;
        if q < t.len() {
            assert(is_line_start(t, q));
            lemma_plain_para_end(t, q);
        } else {
            lemma_run_end(t, CharClass::Line, q, t.len() as int);
        }
    } else {
        assert(t[t.len() - 1] != '\n');
    }
}

/// Text without Markdown syntax translates to itself, as a single
/// paragraph: the output is the input, with exactly one line feed at its
/// end.
pub proof fn lemma_plain_text_is_paragraph(t: Seq<char>)
    requires
        no_markdown(t),
    ensures
        translate_spec(t, false) == t.subrange(0, body_end(t)) + "\n"@,
{
    let n = t.len() as int;
    let e = line_end(t, 0);
    let hi = body_end(t);
    assert(is_line_start(t, 0));
    lemma_plain_para_end(t, 0);
    lemma_next_line(t, 0);
    lemma_para_end(t, e);
    let text = t.subrange(0, hi);
    let spans = seq![SpanView::Text(text)];
    assert(parse_spans(t, 0, hi) == spans) by {
        lemma_plain_end(t, 0, hi);
        assert(!opens_span(t, 0, hi));
        assert(plain_end(t, 0, hi) == hi);
        assert(span_shape(t, 0, hi) == (Shape { kind: SpanKind::Text, lo: 0, hi: hi, next: hi }));
        assert(parse_spans(t, hi, hi) == Seq::<SpanView>::empty());
        assert(parse_spans(t, 0, hi) =~= spans);
    }
    let para = BlockView::Paragraph(spans);
    let blocks = seq![para];
    assert(scan_spec(t) == blocks) by {
        let st = block_at(t, 0, 0);
        assert(!starts_block(t, 0, e));
        assert(st.block == para);
        assert(st.next == n);
        assert(scan_from(t, n, 0) == Seq::<BlockView>::empty());
        assert(scan_from(t, 0, 0) =~= blocks);
    }
    let none = Seq::<Seq<char>>::empty();
    let notes = Seq::<FootnoteView>::empty();
    assert(collect_spec(blocks) == (DocumentView { blocks: blocks, footnotes: notes })) by {
        assert(span_refs(spans[0], none) == none);
        assert(spans_refs(spans, 1, none) == none);
        assert(spans_refs(spans, 0, none) == none);
        assert(block_refs(para, none) == none);
        assert(blocks_refs(blocks, 1, none) == none);
        assert(ref_order(blocks) == none);
        assert(defs_from(blocks, 1) == notes);
        assert(defs_from(blocks, 0) == notes);
        assert(body_from(blocks, 1) == Seq::<BlockView>::empty());
        assert(body_from(blocks, 0) =~= blocks);
        assert(cited_notes(none, 0, notes) == notes);
        assert(uncited_notes(notes, 0, none) == notes);
        assert(footnote_table(blocks) =~= notes);
    }
    assert(emit_doc(DocumentView { blocks: blocks, footnotes: notes }) == text + "\n"@) by {
        assert(emit_span(spans[0], notes) == text);
        assert(emit_spans(spans, 1, notes) == Seq::<char>::empty());
        assert(emit_spans(spans, 0, notes) =~= text);
        assert(emit_block(para, notes) == text + "\n"@);
        assert(is_visible(para));
        assert(!visible_before(blocks, 0));
        assert(emit_blocks(blocks, 1, notes) == Seq::<char>::empty());
        assert(emit_blocks(blocks, 0, notes) =~= text + "\n"@);
        assert(emit_notes(notes, 0, visible_before(blocks, 1)) == Seq::<char>::empty());
        assert(emit_doc(DocumentView { blocks: blocks, footnotes: notes }) =~= text + "\n"@);
    }
    assert(translate_spec(t, false) =~= text + "\n"@);
}

/// A code span is rendered verbatim: what the emitter writes for it is
/// its content between two backticks, and where the span is delimited by
/// single backticks that is the source of the span itself.
pub proof fn lemma_code_span_verbatim(t: Seq<char>, i: int, hi: int, notes: Seq<FootnoteView>)
    requires
        0 <= i < hi <= t.len(),
        span_shape(t, i, hi).kind is Code,
    ensures
        ({
            let sh = span_shape(t, i, hi);
            let head = parse_spans(t, i, hi)[0];
            &&& head == SpanView::InlineCode(t.subrange(sh.lo, sh.hi))
            &&& emit_span(head, notes) == "`"@ + t.subrange(sh.lo, sh.hi) + "`"@
            &&& sh.lo == i + 1 ==> emit_span(head, notes) == t.subrange(i, sh.next)
        }),
{
    reveal_strlit("`");
    let sh = span_shape(t, i, hi);
    let e = run_end(t, CharClass::Is('`'), i, hi);
    lemma_run_end(t, CharClass::Is('`'), i, hi);
    lemma_find_run(t, '`', e - i, e, hi);
    if sh.lo == i + 1 {
        lemma_run_end(t, CharClass::Is('`'), sh.hi, hi);
        assert(t[sh.hi] == '`');
        assert("`"@ + t.subrange(sh.lo, sh.hi) + "`"@ =~= t.subrange(i, sh.next));
    }
}

/// A fenced code block is rendered verbatim: what the emitter writes for
/// it is the source from the opening fence up to the closing fence, and a
/// closing fence of its own.
pub proof fn lemma_code_block_verbatim(t: Seq<char>, p: int, unit: int, notes: Seq<FootnoteView>)
    requires
        0 <= p < t.len(),
        heading_level(t, p, line_end(t, p)) == 0,
        is_fence_open(t, p, line_end(t, p)),
        line_end(t, p) < t.len(),
    ensures
        ({
            let body = next_line(t, line_end(t, p));
            let stop = fence_stop(t, body);
            emit_block(block_at(t, p, unit).block, notes) == t.subrange(p, stop) + fence_gap(
                t.subrange(body, stop),
            ) + "```\n"@
        }),
{
    reveal_strlit("```");
    reveal_strlit("\n");
    let e = line_end(t, p);
    let body = next_line(t, e);
    let stop = fence_stop(t, body);
    lemma_fence_stop(t, body);
    lemma_run_end(t, CharClass::Line, p, t.len() as int);
    let lang = if p + 3 < e {
        Some(t.subrange(p + 3, e))
    } else {
        None
    };
    assert("```"@ + opt_text(lang) + "\n"@ + t.subrange(body, stop) =~= t.subrange(p, stop));
}

} // verus!
