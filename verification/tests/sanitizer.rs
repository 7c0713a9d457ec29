//! The sanitizer on its own and behind the translator.

use md2typ::{normalize_newlines, render, sanitize_text, translate};

#[test]
fn markup_characters_are_escaped() {
    assert_eq!(sanitize_text("a # b"), "a \\# b");
    assert_eq!(sanitize_text("$5 @me a_b *c*"), "\\$5 \\@me a\\_b \\*c\\*");
    assert_eq!(sanitize_text("#1"), "\\#1");
    assert_eq!(sanitize_text("#"), "\\#");
}

#[test]
fn function_calls_are_kept() {
    assert_eq!(sanitize_text("#set page(paper: \"a4\")"), "#set page(paper: \"a4\")");
    assert_eq!(sanitize_text("#emph[x] #Strong"), "#emph[x] #Strong");
}

#[test]
fn escapes_are_not_escaped_again() {
    assert_eq!(sanitize_text("\\#"), "\\#");
    assert_eq!(sanitize_text("\\\\#"), "\\\\\\#");
    assert_eq!(sanitize_text("a\\"), "a\\");
    assert_eq!(sanitize_text("\\`#"), "\\`\\#");
}

#[test]
fn raw_regions_are_untouched() {
    assert_eq!(sanitize_text("`#`"), "`#`");
    assert_eq!(sanitize_text("`a_b` c_d"), "`a_b` c\\_d");
    assert_eq!(sanitize_text("```\n# x $ y\n```\n# z"), "```\n# x $ y\n```\n\\# z");
    assert_eq!(sanitize_text("``a`#`` #"), "``a`#`` \\#");
}

#[test]
fn unclosed_backticks_are_escaped() {
    assert_eq!(sanitize_text("`unclosed #"), "\\`unclosed \\#");
    assert_eq!(sanitize_text("```"), "\\`\\`\\`");
    assert_eq!(sanitize_text("a `b` c `"), "a `b` c \\`");
}

#[test]
fn empty_and_plain_text_pass() {
    assert_eq!(sanitize_text(""), "");
    assert_eq!(sanitize_text("plain text, no markup."), "plain text, no markup.");
    assert_eq!(sanitize_text("caf\u{e9} \u{1F600}"), "caf\u{e9} \u{1F600}");
}

#[test]
fn sanitizing_twice_changes_nothing() {
    let samples = [
        "",
        "a # b",
        "$5 @me a_b *c*",
        "\\",
        "\\\\#",
        "`x` `",
        "```\ncode # $\n```\n#tag #1 _",
        "``a`` ``` b",
        "#set text(size: 11pt)\n\n= T_1 *\n",
        "\\`# `#",
    ];
    for s in samples {
        let once = sanitize_text(s);
        assert_eq!(sanitize_text(&once), once, "input: {:?}", s);
    }
}

#[test]
fn translated_text_is_escaped_outside_code_only() {
    let out = translate("C# costs $5\n\n`a_b` and a_b\n\n```\nx_y = $z\n```\n", false)
        .expect("every text translates");
    assert_eq!(out, "C# costs $5\n\n`a_b` and a_b\n\n```\nx_y = $z\n```\n");
    assert_eq!(
        sanitize_text(&out),
        "C\\# costs \\$5\n\n`a_b` and a\\_b\n\n```\nx_y = $z\n```\n"
    );
}

#[test]
fn emitted_syntax_survives_sanitizing() {
    let out = translate("# T\n\n*e* **s** ~~k~~[^1]\n\n> q\n\n---\n\n[^1]: n", true)
        .expect("every text translates");
    assert_eq!(sanitize_text(&out), out);
}

#[test]
fn line_ends_become_line_feeds() {
    assert_eq!(normalize_newlines("a\r\nb\rc\nd"), "a\nb\nc\nd");
    assert_eq!(normalize_newlines("\r\r\n\r"), "\n\n\n");
    assert_eq!(normalize_newlines(""), "");
    assert_eq!(normalize_newlines("no change\n"), "no change\n");
    let once = normalize_newlines("x\r\r\ny\r");
    assert_eq!(normalize_newlines(&once), once);
}

#[test]
fn render_runs_the_whole_pipeline() {
    assert_eq!(render("# T\r\n\r\na_b\r\n", None, false), Ok("= T\n\na\\_b\n".to_string()));
    assert_eq!(
        render("x", None, true),
        Ok("#set page(margin: 2cm)\n#set text(size: 11pt)\n\nx\n".to_string())
    );
}

#[test]
fn template_takes_the_place_of_the_preamble() {
    let template = "// Test template\r\n#set page(paper: \"a4\")\n#set text(size: 12pt)\n\n";
    assert_eq!(
        render("# Test\n\nContent", Some(template), true),
        Ok("// Test template\n#set page(paper: \"a4\")\n#set text(size: 12pt)\n\n\n\n= Test\n\nContent\n"
            .to_string())
    );
}
