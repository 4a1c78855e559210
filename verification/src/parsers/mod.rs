//! The format parsers; each implements [`FormatParser`](crate::registry::FormatParser).

pub mod xml;
pub mod xml_reader;
pub mod natural;
pub mod ooxml;
pub mod zip_source;
pub mod common;
pub mod docx;
pub mod pptx;
pub mod markdown;
pub mod md_source;
pub mod hwpx;
pub mod html;
pub mod html_source;
pub mod xlsx;
pub mod xlsx_source;
pub mod pdf;
pub mod pdf_source;

pub use docx::DocxParser;
pub use html::HtmlParser;
pub use hwpx::HwpxParser;
pub use markdown::MarkdownParser;
pub use pdf::PdfParser;
pub use pptx::PptxParser;
pub use xlsx::XlsxParser;
