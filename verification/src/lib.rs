//! Structure views of source files: outlines of headings, items and
//! declarations with the line ranges they span.

pub mod text;
pub mod model;
pub mod tree;
pub mod markdown;
pub mod render;
pub mod syntax;
pub mod query;
pub mod rust;
pub mod java;
pub mod javascript;
pub mod kotlin;
pub mod cpp;
pub mod objc;
pub mod swift;
pub mod traverse;
pub mod analyzer;

pub use analyzer::{analyze_source, detect_language};
pub use model::{Language, Node, RenderOptions, StructureView};
pub use render::render_text;
pub use text::truncate_preview;
