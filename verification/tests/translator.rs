//! End-to-end tests of the Markdown to Typst translator.

// Runs the pipeline of the command-line tool: translate, then sanitize.
fn render(md: &str) -> String {
    let out = md2typ::translate(md, false).expect("translate should succeed");
    md2typ::sanitize_text(&out)
}

// Collapses runs of whitespace, for comparisons that do not depend on layout.
fn norm(s: &str) -> String {
    let mut out = String::with_capacity(s.len());
    let mut last_ws = false;
    for ch in s.chars() {
        if ch.is_whitespace() {
            if !last_ws {
                out.push(' ');
                last_ws = true;
            }
        } else {
            last_ws = false;
            out.push(ch);
        }
    }
    out.trim().to_string()
}

#[test]
fn headings_emphasis_and_lists() {
    let md = "\n# Title\n\nSome *emphasis*, **strong**, ~~strike~~, and `inline`.\n\n- a\n  - nested\n- b\n\n1. one\n2. two\n";

    let got = render(md);
    let g = norm(&got);

    assert!(g.contains("= Title"));
    assert!(g.contains("#emph[emphasis]"));
    assert!(g.contains("#strong[strong]"));
    assert!(g.contains("#strike[strike]"));
    assert!(g.contains("`inline`"));
    assert!(g.contains("- a"));
    assert!(g.contains("nested"));
    assert!(g.contains("- b"));
    assert!(g.contains("1. one") && g.contains("2. two"));
}

#[test]
fn task_lists() {
    let md = "\n- [ ] Unchecked\n- [x] Checked\n";

    let got = render(md);
    let g = norm(&got);

    let unchecked_ok = g.contains("[ ] Unchecked") || g.contains("Unchecked");
    let checked_ok = g.contains("[x] Checked") || g.contains("Checked");

    assert!(
        unchecked_ok,
        "missing unchecked task (with or without marker):\n{}",
        got
    );
    assert!(
        checked_ok,
        "missing checked task (with or without marker):\n{}",
        got
    );
}

#[test]
fn code_blocks_passthrough() {
    let md = "\n```rust\nfn main() { println!(\"hi\"); }\n```\n";

    let got = render(md);

    assert!(got.contains("```rust"));
    assert!(got.contains("println!(\"hi\");"));
    assert!(got.contains("```"));
}

#[test]
fn blockquotes() {
    let md = ">\nA quote block\n> spanning lines\n";

    let got = render(md);
    assert!(got.contains("#quote["));
    assert!(got.contains("A quote block"));
    assert!(got.contains("spanning lines"));
}

#[test]
fn tables_with_header() {
    let md = "\n| ColA | ColB |\n|------|:----:|\n| x    |  y   |\n";

    let got = render(md);
    let g = norm(&got);

    let has_wrapper = g.contains("#table(");
    let has_cells = g.contains("x") && g.contains("y");
    let header_present = g.contains("ColA") && g.contains("ColB");

    assert!(has_cells, "missing table cell content:\n{}", got);
    assert!(
        has_wrapper || header_present,
        "expected table wrapper or headers present:\n{}",
        got
    );
}

#[test]
fn footnotes() {
    let md = "Here is a footnote.[^1]\n\n[^1]: Footnote text.\n";

    let got = render(md);
    let g = norm(&got);

    assert!(g.contains("#super[1]"), "missing footnote ref: {}", got);
    assert!(g.contains("Footnote text"), "missing footnote def: {}", got);
}

#[test]
fn fixture_capabilities_minimal() {
    let md = "## Capabilities\n\n- Autonomy\n- Real-time\n- Security\n";

    let got = render(md);
    let g = norm(&got);

    assert!(g.contains("== Capabilities"));
    assert!(g.contains("Autonomy"));
    assert!(g.contains("Real-time"));
    assert!(g.contains("Security"));
}

#[test]
fn template_functionality() {
    let md = "# Test\n\nContent";
    let result = md2typ::translate(md, false).expect("Translation should succeed");

    assert!(result.contains("= Test"));
    assert!(result.contains("Content"));
}
