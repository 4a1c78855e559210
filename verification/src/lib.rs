//! Document-to-Markdown conversion: format parsers produce a common IR, the
//! renderer turns the IR into Markdown and the chunker cuts it into
//! vector-store-sized pieces.

pub mod error;
pub mod ir;
pub mod text;
pub mod strs;
pub mod renderer;
pub mod media;
pub mod chunker;
pub mod registry;
pub mod parsers;

pub use ir::{
    Block, Document, DocumentMetadata, ImageData, Inline, ListItem, NestedList, SourceFormat, Table,
    Timestamp,
};
pub use chunker::{Chunk, HeuristicTokenCounter, SemanticChunker, TokenCounter};
pub use error::{ConvertError, ParseError};
pub use registry::{FormatParser, ParserRegistry};
pub use renderer::MarkdownRenderer;
