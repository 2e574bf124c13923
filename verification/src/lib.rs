//! Finding source code that lacks documentation, and writing
//! documentation into it.
//!
//! A text is parsed into items (functions, methods, classes), the items
//! are analyzed for missing or outdated documentation, and new
//! documentation is written into the text without touching anything
//! else. Each language has its parser; what all of them share is
//! stated over sequences of characters and lines and proved once.
//!
//! - [`parser`]: the items of a text.
//! - [`docstring`]: the analysis, and the updates that a rewrite takes.
//! - [`rewrite`]: the rewrite itself.
//! - [`extract`]: from what a parser found to the items.
//! - [`lang`]: the languages.
//! - [`llm`]: asking for documentation text.

pub mod block_comments;
pub mod config;
pub mod docstring;
pub mod error;
pub mod extract;
pub mod hash_comments;
pub mod inline_literals;
pub mod kept_lines;
pub mod lang;
pub mod line_bounds;
pub mod line_comments;
pub mod lines;
pub mod llm;
pub mod order_free;
pub mod parser;
pub mod pattern;
pub mod read_back;
pub mod rewrite;
pub mod round_trip;
pub mod text;
pub mod updater;
