use rust_markdown_transformer::media::mime_from_path;
use rust_markdown_transformer::parsers::pdf::{decode_pdf_text, split_paragraphs, text_to_blocks};
use rust_markdown_transformer::parsers::xlsx::trim_grid;
use rust_markdown_transformer::media::base64_encode;
use rust_markdown_transformer::{HeuristicTokenCounter, ParseError, TokenCounter};
use rust_markdown_transformer::{
    Block, ConvertError, Document, DocumentMetadata, Inline, MarkdownRenderer, ParserRegistry, SourceFormat, Table,
    Timestamp,
};

fn para(t: &str) -> Block {
    Block::Paragraph(vec![Inline::Text(t.to_string())])
}

#[test]
fn pdf_text_pages_and_paragraphs() {
    let blocks = text_to_blocks("first line\nsame para\n\n  second   para \n\u{0C}third\n");
    assert_eq!(
        blocks,
        vec![para("first line same para"), para("second para"), Block::PageBreak, para("third")]
    );
}

#[test]
fn pdf_text_page_breaks_match_form_feeds() {
    let blocks = text_to_blocks("\u{0C}\u{0C}only on the third page\u{0C}");
    let breaks = blocks.iter().filter(|b| matches!(b, Block::PageBreak)).count();
    assert_eq!(breaks, 3);
    assert_eq!(blocks.len(), 4);
    assert_eq!(blocks[2], para("only on the third page"));
}

#[test]
fn pdf_paragraphs_skip_blank_lines() {
    assert_eq!(split_paragraphs("\n \n\t\n"), Vec::<String>::new());
    assert_eq!(split_paragraphs("a\r\nb\n\n\nc"), vec!["a b".to_string(), "c".to_string()]);
}

#[test]
fn pdf_info_strings_decode() {
    assert_eq!(decode_pdf_text(&[0xFE, 0xFF, 0x00, 0x48, 0x00, 0x69]), "Hi");
    assert_eq!(decode_pdf_text(&[0xFE, 0xFF, 0xD5, 0x5C]), "\u{D55C}");
    assert_eq!(decode_pdf_text(&[0x48, 0xE9]), "H\u{E9}");
    assert_eq!(decode_pdf_text(&[]), "");
    assert_eq!(decode_pdf_text(&[0xFE, 0xFF, 0xD8, 0x3D, 0xDE, 0x00]), "\u{1F600}");
    assert_eq!(decode_pdf_text(&[0xFE, 0xFF, 0xD8, 0x00, 0x00, 0x41]), "\u{FFFD}A");
    assert_eq!(decode_pdf_text(&[0xFE, 0xFF, 0xDE, 0x00]), "\u{FFFD}");
    assert_eq!(decode_pdf_text(&[0xFE, 0xFF, 0x00]), "\u{0}");
}

#[test]
fn mime_type_ignores_letter_case() {
    assert_eq!(mime_from_path("A/B.PNG"), mime_from_path("a/b.png"));
    assert_eq!(mime_from_path("DIR/PHOTO.JPEG"), "image/jpeg");
    assert_eq!(mime_from_path("x.Svg"), "image/svg+xml");
}

#[test]
fn table_cells_stay_on_one_line() {
    let blocks = vec![Block::Table(Table {
        headers: vec!["h|1".to_string(), "h2".to_string()],
        rows: vec![vec!["a\nb".to_string(), "c |\r\n d".to_string()]],
        caption: None,
    })];
    let md = MarkdownRenderer::render_blocks(&blocks);
    assert!(md.contains("| h\\|1 | h2 |"), "{md}");
    assert!(md.contains("| a b | c \\| d |"), "{md}");
}

#[test]
fn markdown_bom_gives_the_same_document() {
    let registry = ParserRegistry::with_defaults();
    let text = "# Title\n\nbody\n";
    let mut with_bom = vec![0xEF, 0xBB, 0xBF];
    with_bom.extend_from_slice(text.as_bytes());
    let a = registry.parse_reader(&with_bom, "a.md", Some("md")).expect("parse ok");
    let b = registry.parse_reader(text.as_bytes(), "a.md", Some("md")).expect("parse ok");
    assert_eq!(a, b);
}

#[test]
fn supported_exactly_when_not_refused() {
    let registry = ParserRegistry::with_defaults();
    let random = b"random bytes".to_vec();
    assert!(!registry.is_supported("x.zzz", Some(&random)));
    assert!(matches!(registry.parse_to_ir("x.zzz", &random), Err(ConvertError::UnsupportedFormat(e)) if e == "zzz"));

    let md = b"# Hi\n".to_vec();
    assert!(registry.is_supported("notes.md", Some(&md)));
    assert!(registry.parse_to_ir("notes.md", &md).is_ok());

    let pdf = b"%PDF-1.7 but not really".to_vec();
    assert!(registry.is_supported("blob", Some(&pdf)));
    assert!(!matches!(registry.parse_to_ir("blob", &pdf), Err(ConvertError::UnsupportedFormat(_))));
}

#[test]
fn later_registration_keeps_earlier_claims() {
    let mut registry = ParserRegistry::with_defaults();
    registry.register(Box::new(rust_markdown_transformer::parsers::HtmlParser));
    let names = registry.parser_names();
    assert_eq!(names, vec!["docx", "pptx", "xlsx", "hwpx", "pdf", "html", "markdown", "html"]);
    let doc = registry.parse_to_ir("notes.md", b"# Hi\n").expect("parse ok");
    assert_eq!(doc.metadata.source_format, SourceFormat::Markdown);
    let doc = registry.parse_to_ir("page.html", b"<html><body><p>x</p></body></html>").expect("parse ok");
    assert_eq!(doc.metadata.source_format, SourceFormat::Html);
}

#[test]
fn metadata_new_is_minimal() {
    let m = DocumentMetadata::new(SourceFormat::Pdf, "a.pdf");
    assert_eq!(m.original_filename, "a.pdf");
    assert!(m.title.is_none() && m.author.is_none() && m.page_count.is_none() && m.created_at.is_none());
}

#[test]
fn html_bom_gives_the_same_document() {
    let registry = ParserRegistry::with_defaults();
    let text = "<html><head><title>T</title></head><body><p>x</p></body></html>";
    let mut with_bom = vec![0xEF, 0xBB, 0xBF];
    with_bom.extend_from_slice(text.as_bytes());
    let a = registry.parse_reader(&with_bom, "a.html", Some("html")).expect("parse ok");
    let b = registry.parse_reader(text.as_bytes(), "a.html", Some("html")).expect("parse ok");
    assert_eq!(a, b);
    assert_eq!(a.metadata.title.as_deref(), Some("T"));
}

fn grid(rows: &[&[&str]]) -> Vec<Vec<String>> {
    rows.iter().map(|r| r.iter().map(|c| c.to_string()).collect()).collect()
}

#[test]
fn trimmed_grid_is_a_rectangle_without_blank_edges() {
    let g = grid(&[
        &["", " ", ""],
        &["", "Name", "Age", ""],
        &["", "Alice"],
        &["\t", ""],
    ]);
    assert_eq!(trim_grid(g), grid(&[&["Name", "Age"], &["Alice", ""]]));
    assert_eq!(trim_grid(grid(&[&[" "], &[]])), Vec::<Vec<String>>::new());
    assert_eq!(trim_grid(grid(&[&["a"], &["b", "c"]])), grid(&[&["a", ""], &["b", "c"]]));
}

#[test]
fn frontmatter_prints_creation_time() {
    let mut metadata = DocumentMetadata::new(SourceFormat::Docx, "r.docx");
    metadata.created_at = Some(Timestamp { seconds: 86_400, nanos: 0 });
    metadata.page_count = Some(3);
    let md = MarkdownRenderer::render(&Document { metadata, blocks: vec![para("x")] });
    assert!(md.starts_with("---\n"), "{md}");
    assert!(md.contains("created_at: 1970-01-02T00:00:00+00:00\n"), "{md}");
    assert!(md.contains("page_count: 3\n"), "{md}");
    assert!(md.ends_with("x\n") && !md.ends_with("\n\n"), "{md:?}");
}

#[test]
fn code_fence_outgrows_backtick_runs() {
    let code = |c: &str| vec![Block::CodeBlock { lang: None, code: c.to_string() }];
    assert_eq!(MarkdownRenderer::render_blocks(&code("plain")), "```\nplain\n```\n\n");
    assert_eq!(MarkdownRenderer::render_blocks(&code("a```b")), "````\na```b\n````\n\n");
    assert_eq!(MarkdownRenderer::render_blocks(&code("a````b")), "`````\na````b\n`````\n\n");
}

#[test]
fn table_without_headers_promotes_first_row() {
    let blocks = vec![Block::Table(Table {
        headers: vec![],
        rows: vec![vec!["x".to_string(), "a|b".to_string()], vec!["1".to_string(), "2".to_string()]],
        caption: None,
    })];
    assert_eq!(MarkdownRenderer::render_blocks(&blocks), "| x | a\\|b |\n| --- | --- |\n| 1 | 2 |\n\n");
}

#[test]
fn frontmatter_quotes_line_breaks() {
    let mut metadata = DocumentMetadata::new(SourceFormat::Markdown, "d.md");
    metadata.title = Some("a\nb".to_string());
    metadata.author = Some("x\r".to_string());
    let md = MarkdownRenderer::render(&Document { metadata, blocks: vec![] });
    assert!(md.contains("title: \"a\\nb\"\n"), "{md}");
    assert!(md.contains("author: \"x\\r\"\n"), "{md}");
}

#[test]
fn error_messages() {
    assert_eq!(
        ParseError::container("docx", "missing x".to_string()).message(),
        "malformed docx container: missing x"
    );
    assert_eq!(ParseError::markup("pptx", "bad".to_string()).message(), "pptx markup parse error: bad");
    assert_eq!(
        ParseError::encoding("markdown", "utf8".to_string()).message(),
        "text encoding error in markdown: utf8"
    );
    assert_eq!(
        ConvertError::UnsupportedFormat("zzz".to_string()).message(),
        "unsupported format: 'zzz' (no registered parser)"
    );
    assert_eq!(ConvertError::Parse(ParseError::markup("x", "y".to_string())).message(), "x markup parse error: y");
    let io = ParseError::Io(std::io::Error::new(std::io::ErrorKind::Other, "boom")).message();
    assert_eq!(io, "I/O error: boom");
}

#[test]
fn base64_uses_alphabet_then_padding() {
    for n in 0..10usize {
        let bytes: Vec<u8> = (0..n).map(|i| (i * 97 % 256) as u8).collect();
        let out = base64_encode(&bytes);
        let pad = (3 - n % 3) % 3;
        let (body, tail) = out.split_at(out.len() - pad);
        assert!(body.chars().all(|c| c.is_ascii_alphanumeric() || c == '+' || c == '/'), "{out}");
        assert!(tail.chars().all(|c| c == '='), "{out}");
    }
    assert_eq!(base64_encode(&[0xFB, 0xFF]), "+/8=");
}

#[test]
fn token_count_adds_over_whitespace() {
    let c = HeuristicTokenCounter;
    let a = "hello wor";
    let b = "한국어 text";
    assert_eq!(c.count(&format!("{a} {b}")), c.count(a) + c.count(b));
    assert_eq!(c.count(&format!("{a}\n{b}")), c.count(a) + c.count(b));
    assert_eq!(c.count(" \t\n"), 0);
    assert_eq!(c.count(""), 0);
    assert!(c.count("x") > 0);
    assert_eq!(c.count("abcdefgh 한국"), 4);
}
