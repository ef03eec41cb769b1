//! Markdown formatting helpers and the Markdown block parser.
pub mod blockquote;
pub mod blocks;
pub mod bold;
pub mod code;
pub mod code_block;
pub mod events;
pub mod heading;
pub mod italic;
pub mod link;
pub mod list;
pub mod math;
pub mod mermaid;
pub mod paragraph;
pub mod spacer;
pub mod table;
