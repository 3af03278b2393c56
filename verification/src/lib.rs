//! Reformats "bulleted note" text: a line-oriented flattener joins each
//! bullet with its indented continuations into one logical line, and a
//! character-oriented lexer turns the minimal inline dialect (`**bold**`,
//! `*italic*`) of the flattened text into an HTML-escaped fragment wrapped
//! in a fixed document skeleton.

pub mod flatten;
pub mod laws;
pub mod render;
pub mod text;

pub use crate::flatten::convert_text;
pub use crate::render::convert_to_html;
pub use crate::render::html_escape;
pub use crate::render::render_fragment;
pub use crate::render::wrap_html;
