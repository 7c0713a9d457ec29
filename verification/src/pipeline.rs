//! The whole way from raw Markdown to sanitized Typst: line ends are
//! normalised, the text is translated, a template is put in front, and the
//! result is sanitized.

use vstd::prelude::*;
use crate::engine::{translate_chars, translate_spec, TranslateError};
use crate::sanitize::{sanitize_chars, sanitize_spec};
use crate::text::{push_all, push_str, to_chars, to_string};

verus! {

/// `s` with every line end as a single line feed: a carriage return with a
/// line feed behind it becomes one line feed, and so does a carriage return
/// alone.
pub open spec fn normalize_spec(s: Seq<char>) -> Seq<char>
    decreases s.len(),
{
    if s.len() == 0 {
        s
    } else if s[0] == '\r' {
        if s.len() >= 2 && s[1] == '\n' {
            seq!['\n'] + normalize_spec(s.skip(2))
        } else {
            seq!['\n'] + normalize_spec(s.skip(1))
        }
    } else {
        seq![s[0]] + normalize_spec(s.skip(1))
    }
}

/// Whether `s` holds no carriage return.
pub open spec fn no_carriage_return(s: Seq<char>) -> bool {
    forall|k: int| 0 <= k < s.len() ==> s[k] != '\r'
}

/// A normalised text holds no carriage return.
pub proof fn lemma_normalize_no_cr(s: Seq<char>)
    ensures
        no_carriage_return(normalize_spec(s)),
    decreases s.len(),
{
    if s.len() == 0 {
    } else if s[0] == '\r' && s.len() >= 2 && s[1] == '\n' {
        lemma_normalize_no_cr(s.skip(2));
    } else {
        lemma_normalize_no_cr(s.skip(1));
    }
}

/// A text without carriage returns is normalised already.
pub proof fn lemma_normalize_keeps(s: Seq<char>)
    requires
        no_carriage_return(s),
    ensures
        normalize_spec(s) == s,
    decreases s.len(),
{
    if s.len() > 0 {
        assert forall|k: int| 0 <= k < s.skip(1).len() implies s.skip(1)[k] != '\r' by {
            assert(s.skip(1)[k] == s[k + 1]);
        }
        lemma_normalize_keeps(s.skip(1));
        assert(seq![s[0]] + s.skip(1) =~= s);
    }
}

/// Normalising twice gives what normalising once gives.
pub proof fn lemma_normalize_idempotent(s: Seq<char>)
    ensures
        normalize_spec(normalize_spec(s)) == normalize_spec(s),
{
    lemma_normalize_no_cr(s);
    lemma_normalize_keeps(normalize_spec(s));
}

/// Normalises the line ends of a text held as characters.
pub fn normalize_chars(v: &Vec<char>) -> (out: Vec<char>)
    ensures
        out@ == normalize_spec(v@),
{
    let mut out: Vec<char> = Vec::new();
    let len = v.len();
    let mut i: usize = 0;
    assert(v@.skip(0) =~= v@);
    while i < len
        invariant
            i <= len == v.len(),
            normalize_spec(v@) == out@ + normalize_spec(v@.skip(i as int)),
        decreases len - i,
    {
        let ghost s = v@.skip(i as int);
        let c = v[i];
        assert(s[0] == c);
        if c == '\r' {
            out.push('\n');
            if len - i >= 2 && v[i + 1] == '\n' {
                assert(s[1] == v[i + 1]);
                assert(s.skip(2) =~= v@.skip(i + 2));
                i = i + 2;
            } else {
                assert(len - i >= 2 ==> s[1] == v[i + 1]);
                assert(s.skip(1) =~= v@.skip(i + 1));
                i = i + 1;
            }
        } else {
            out.push(c);
            assert(s.skip(1) =~= v@.skip(i + 1));
            i = i + 1;
        }
    }
    assert(v@.skip(len as int) =~= Seq::<char>::empty());
    out
}

/// Turns every line end of `text` into a single line feed.
pub fn normalize_newlines(text: &str) -> (r: String)
    ensures
        r@ == normalize_spec(text@),
{
    let v = to_chars(text);
    let out = normalize_chars(&v);
    to_string(&out)
}

/// The value of an optional text.
pub open spec fn template_view(template: Option<&str>) -> Option<Seq<char>> {
    match template {
        Some(t) => Some(t@),
        None => None,
    }
}

/// The sanitized Typst text of the raw Markdown text `md`. A template goes
/// in front of the translation, with an empty line between them, and takes
/// the place of the preamble.
pub open spec fn render_spec(md: Seq<char>, template: Option<Seq<char>>, want_preamble: bool) -> Seq<
    char,
> {
    let body = translate_spec(normalize_spec(md), template is None && want_preamble);
    sanitize_spec(
        match template {
            Some(t) => normalize_spec(t) + "\n\n"@ + body,
            None => body,
        },
    )
}

/// Renders raw Markdown as sanitized Typst: normalises the line ends of
/// the text and of the template, translates the text, puts the template in
/// front if there is one (it takes the place of the preamble), and
/// sanitizes the whole. Every text renders.
pub fn render(md: &str, template: Option<&str>, want_preamble: bool) -> (r: Result<
    String,
    TranslateError,
>)
    ensures
        r matches Ok(s) && s@ == render_spec(md@, template_view(template), want_preamble),
{
    let raw = to_chars(md);
    let text = normalize_chars(&raw);
    let body = translate_chars(&text, template.is_none() && want_preamble);
    let mut whole: Vec<char> = Vec::new();
    match template {
        Some(t) => {
            let traw = to_chars(t);
            let tnorm = normalize_chars(&traw);
            push_all(&mut whole, &tnorm);
            push_str(&mut whole, "\n\n");
        },
        None => {},
    }
    push_all(&mut whole, &body);
    let clean = sanitize_chars(&whole);
    Ok(to_string(&clean))
}

} // verus!
