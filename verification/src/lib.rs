//! Lightdown: a small document language. Author text (Markdown-like, with
//! embedded IR) is lowered to Lightdown IR, compiled to bytecode, run to a
//! resolved document, and rendered to HTML.
pub mod author;
pub mod html;
pub mod ir;
pub mod text;

pub use author::error::{ParseError, ParseErrorKind, RenderError};
pub use author::{parse, render_html};
