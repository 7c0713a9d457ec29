//! Markdown to Typst translation with machine-checked contracts.
//!
//! [`translate`] turns a Markdown text into Typst markup and
//! [`sanitize_text`] escapes what Typst would misread in the result;
//! [`render`] does both, from raw text and with an optional template. Each
//! stage of the translation has a module of its own: the block scanner
//! ([`scan`]), the inline parser ([`inline`]), the list and table builders
//! ([`list`], [`table`]), the footnote collector ([`footnote`]) and the
//! emitter ([`emit`]).

pub mod emit;
pub mod engine;
pub mod footnote;
pub mod inline;
pub mod list;
pub mod model;
pub mod pipeline;
pub mod sanitize;
pub mod scan;
pub mod table;
pub mod text;

pub use crate::engine::{translate, TranslateError};
pub use crate::pipeline::{normalize_newlines, render};
pub use crate::sanitize::sanitize_text;
