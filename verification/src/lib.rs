//! A line-oriented substring search library.
//!
//! The engine consumes a stream of text lines, keeps lines that match a set
//! of inclusion patterns (or every line when no incl set is given), drops
//! lines that match an exclude pattern, always keeps the first `top_n` lines
//! of a stream, and renders each surviving line either verbatim (raw mode) or
//! with an optional file label, an optional line number, and every occurrence
//! of each inclusion pattern highlighted.

pub mod text;
pub mod color;
pub mod filter;
pub mod listing;
pub mod cmd_line;
