use std::io::{Cursor, Write};

use lopdf::content::{Content, Operation};
use lopdf::{Object, Stream};
use rust_markdown_transformer::parsers::ooxml::OoxmlPackage;
use rust_markdown_transformer::parsers::pdf::{page_image_blocks, parse_pdf, PdfImage, PdfParts, TextLayer};
use rust_markdown_transformer::{FormatParser, ParseError};

use rust_markdown_transformer::{
    Block, ConvertError, Document, DocumentMetadata, HeuristicTokenCounter, Inline, MarkdownRenderer,
    ParserRegistry, SemanticChunker, SourceFormat, TokenCounter,
};

fn build_zip(entries: &[(&str, &str)]) -> Vec<u8> {
    let mut buf = Vec::new();
    {
        let mut zip = zip::ZipWriter::new(Cursor::new(&mut buf));
        let opts: zip::write::FileOptions<'_, ()> =
            zip::write::FileOptions::default().compression_method(zip::CompressionMethod::Deflated);
        for (name, content) in entries {
            zip.start_file(*name, opts).unwrap();
            zip.write_all(content.as_bytes()).unwrap();
        }
        zip.finish().unwrap();
    }
    buf
}

/// What a caller gathers for the PDF parser: the images of each page and the
/// extracted text layer (no layout blocks).
fn pdf_parts(bytes: &[u8]) -> PdfParts {
    let page_images = match lopdf::Document::load_mem(bytes) {
        Ok(doc) => doc
            .get_pages()
            .into_values()
            .map(|id| {
                doc.get_page_images(id).ok().map(|imgs| {
                    imgs.into_iter()
                        .map(|img| PdfImage {
                            id0: img.id.0,
                            id1: img.id.1,
                            filters: img.filters,
                            content: img.content.to_vec(),
                        })
                        .collect()
                })
            })
            .collect(),
        Err(_) => Vec::new(),
    };
    let text = match pdf_extract::extract_text_from_mem(bytes) {
        Ok(t) => TextLayer::Extracted(t),
        Err(e) => TextLayer::Failed(e.to_string()),
    };
    PdfParts { layout: Vec::new(), page_images, text }
}

fn convert(bytes: Vec<u8>, ext: &str, name: &str) -> String {
    let registry = ParserRegistry::with_defaults();
    let parts = if ext == "pdf" { pdf_parts(&bytes) } else { PdfParts::none() };
    let doc = registry.parse_reader_with_pdf_parts(&bytes, name, Some(ext), parts).expect("parse ok");
    MarkdownRenderer::render(&doc)
}

#[test]
fn markdown_renormalize_roundtrip() {
    let src = "# Title\n\nSome **bold** and *italic* and `code`.\n\n- a\n- b\n  - nested\n\n## Section\n\n| H1 | H2 |\n|----|----|\n| a  | b  |\n";
    let md = convert(src.as_bytes().to_vec(), "md", "doc.md");

    assert!(md.contains("# Title"));
    assert!(md.contains("## Section"));
    assert!(md.contains("**bold**"));
    assert!(md.contains("*italic*"));
    assert!(md.contains("`code`"));
    assert!(md.contains("- a"));
    assert!(md.contains("  - nested"), "nested list indented:\n{md}");
    assert!(md.contains("| H1 | H2 |"));
    assert!(md.contains("| --- | --- |"));
    assert!(md.contains("source_format: markdown"));
}

#[test]
fn markdown_strips_utf8_bom() {
    // UTF-8 BOM(EF BB BF) 이 앞에 붙은 입력도 출력에 ﻿ 가 새지 않아야 한다.
    let mut bytes = vec![0xEF, 0xBB, 0xBF];
    bytes.extend_from_slice("# Title\n\nbody\n".as_bytes());
    let md = convert(bytes, "md", "bom.md");
    assert!(!md.contains('\u{feff}'), "BOM leaked into output:\n{md:?}");
    assert!(md.contains("# Title"));
}

#[test]
fn markdown_idempotent() {
    // IR → md → IR → md 가 안정(결정적)인지.
    let src = "# A\n\ntext one\n\n## B\n\n- x\n- y\n";
    let once = convert(src.as_bytes().to_vec(), "md", "d.md");
    // frontmatter 제외 본문만 추출해 다시 변환.
    let body = once.split("---\n\n").nth(1).unwrap_or(&once).to_string();
    let twice = convert(body.into_bytes(), "md", "d.md");
    let body2 = twice.split("---\n\n").nth(1).unwrap_or(&twice).to_string();
    let body1 = once.split("---\n\n").nth(1).unwrap_or(&once).to_string();
    assert_eq!(body1, body2, "재정규화는 idempotent 해야 한다");
}

#[test]
fn docx_basic() {
    let styles = r#"<?xml version="1.0"?>
        <w:styles xmlns:w="http://schemas.openxmlformats.org/wordprocessingml/2006/main">
          <w:style w:styleId="Heading1"><w:name w:val="heading 1"/></w:style>
          <w:style w:styleId="Heading2"><w:name w:val="heading 2"/></w:style>
        </w:styles>"#;
    let document = r#"<?xml version="1.0"?>
        <w:document xmlns:w="http://schemas.openxmlformats.org/wordprocessingml/2006/main">
          <w:body>
            <w:p><w:pPr><w:pStyle w:val="Heading1"/></w:pPr><w:r><w:t>Report</w:t></w:r></w:p>
            <w:p><w:r><w:t>Hello </w:t></w:r><w:r><w:rPr><w:b/></w:rPr><w:t>world</w:t></w:r></w:p>
            <w:p><w:pPr><w:pStyle w:val="Heading2"/></w:pPr><w:r><w:t>Sub</w:t></w:r></w:p>
            <w:tbl>
              <w:tr><w:tc><w:p><w:r><w:t>H1</w:t></w:r></w:p></w:tc><w:tc><w:p><w:r><w:t>H2</w:t></w:r></w:p></w:tc></w:tr>
              <w:tr><w:tc><w:p><w:r><w:t>a</w:t></w:r></w:p></w:tc><w:tc><w:p><w:r><w:t>b</w:t></w:r></w:p></w:tc></w:tr>
            </w:tbl>
          </w:body>
        </w:document>"#;
    let core = r#"<?xml version="1.0"?>
        <cp:coreProperties xmlns:cp="x" xmlns:dc="http://purl.org/dc/elements/1.1/">
          <dc:title>My Report</dc:title><dc:creator>Jane</dc:creator>
        </cp:coreProperties>"#;
    let zip = build_zip(&[
        ("word/styles.xml", styles),
        ("word/document.xml", document),
        ("docProps/core.xml", core),
    ]);

    let md = convert(zip, "docx", "r.docx");
    assert!(md.contains("title: My Report"), "core title:\n{md}");
    assert!(md.contains("author: Jane"));
    assert!(md.contains("# Report"));
    assert!(md.contains("## Sub"));
    assert!(md.contains("Hello **world**"), "bold run:\n{md}");
    assert!(md.contains("| H1 | H2 |"));
    assert!(md.contains("| a | b |"));
}

#[test]
fn pptx_basic() {
    let slide = |title: &str, body: &str| {
        format!(
            r#"<?xml version="1.0"?>
            <p:sld xmlns:p="p" xmlns:a="a">
              <p:cSld><p:spTree>
                <p:sp>
                  <p:nvSpPr><p:nvPr><p:ph type="title"/></p:nvPr></p:nvSpPr>
                  <p:txBody><a:p><a:r><a:t>{title}</a:t></a:r></a:p></p:txBody>
                </p:sp>
                <p:sp>
                  <p:txBody><a:p><a:r><a:t>{body}</a:t></a:r></a:p></p:txBody>
                </p:sp>
              </p:spTree></p:cSld>
            </p:sld>"#
        )
    };
    let s1 = slide("Slide One", "first body");
    let s2 = slide("Slide Two", "second body");
    let zip = build_zip(&[
        ("ppt/slides/slide1.xml", &s1),
        ("ppt/slides/slide2.xml", &s2),
    ]);

    let md = convert(zip, "pptx", "deck.pptx");
    assert!(md.contains("## Slide One"));
    assert!(md.contains("## Slide Two"));
    assert!(md.contains("first body"));
    assert!(md.contains("second body"));
    assert!(md.contains("page_count: 2"));
    // 슬라이드 사이 PageBreak (--- 구분).
    let title_one = md.find("Slide One").unwrap();
    let title_two = md.find("Slide Two").unwrap();
    assert!(md[title_one..title_two].contains("---"), "PageBreak between slides:\n{md}");
}

#[test]
fn hwpx_basic() {
    // engName 으로 Outline → 헤딩 레벨 매핑.
    let header = r#"<?xml version="1.0" encoding="UTF-8"?>
        <hh:head xmlns:hh="http://www.hancom.co.kr/hwpml/2011/head">
          <hh:styles>
            <hh:style id="0" type="PARA" name="Normal" engName="Normal"/>
            <hh:style id="2" type="PARA" name="Outline1" engName="Outline 1"/>
            <hh:style id="3" type="PARA" name="Outline2" engName="Outline 2"/>
          </hh:styles>
        </hh:head>"#;
    let section0 = r#"<?xml version="1.0" encoding="UTF-8"?>
        <hs:sec xmlns:hs="http://www.hancom.co.kr/hwpml/2011/section"
                xmlns:hp="http://www.hancom.co.kr/hwpml/2011/paragraph">
          <hp:p styleIDRef="2"><hp:run><hp:t>보고서 제목</hp:t></hp:run></hp:p>
          <hp:p styleIDRef="0"><hp:run><hp:t>본문 첫 단락입니다.</hp:t></hp:run></hp:p>
          <hp:p styleIDRef="3"><hp:run><hp:t>소제목</hp:t></hp:run></hp:p>
          <hp:tbl>
            <hp:tr>
              <hp:tc><hp:subList><hp:p><hp:run><hp:t>항목</hp:t></hp:run></hp:p></hp:subList></hp:tc>
              <hp:tc><hp:subList><hp:p><hp:run><hp:t>값</hp:t></hp:run></hp:p></hp:subList></hp:tc>
            </hp:tr>
            <hp:tr>
              <hp:tc><hp:subList><hp:p><hp:run><hp:t>매출</hp:t></hp:run></hp:p></hp:subList></hp:tc>
              <hp:tc><hp:subList><hp:p><hp:run><hp:t>100</hp:t></hp:run></hp:p></hp:subList></hp:tc>
            </hp:tr>
          </hp:tbl>
        </hs:sec>"#;
    let content_hpf = r#"<?xml version="1.0" encoding="UTF-8"?>
        <opf:package xmlns:opf="http://www.idpf.org/2007/opf/" xmlns:dc="http://purl.org/dc/elements/1.1/">
          <opf:metadata><dc:title>분기 보고서</dc:title></opf:metadata>
        </opf:package>"#;
    let zip = build_zip(&[
        ("Contents/header.xml", header),
        ("Contents/section0.xml", section0),
        ("Contents/content.hpf", content_hpf),
    ]);

    let md = convert(zip, "hwpx", "report.hwpx");
    assert!(md.contains("title: 분기 보고서"), "content.hpf title:\n{md}");
    assert!(md.contains("# 보고서 제목"), "Outline 1 → h1:\n{md}");
    assert!(md.contains("## 소제목"), "Outline 2 → h2:\n{md}");
    assert!(md.contains("본문 첫 단락입니다."));
    assert!(md.contains("| 항목 | 값 |"), "table header:\n{md}");
    assert!(md.contains("| 매출 | 100 |"), "table row:\n{md}");
}

#[test]
fn chunker_splits_on_headings() {

    let mut doc = Document::new(DocumentMetadata::new(SourceFormat::Markdown, "x.md"));
    doc.push(Block::Heading { level: 1, text: "Chapter 1".into() });
    doc.push(Block::Paragraph(vec![Inline::text("intro to chapter one")]));
    doc.push(Block::Heading { level: 2, text: "Section 1.1".into() });
    doc.push(Block::Paragraph(vec![Inline::text("section body text")]));
    doc.push(Block::Heading { level: 1, text: "Chapter 2".into() });
    doc.push(Block::Paragraph(vec![Inline::text("second chapter")]));

    let chunker = SemanticChunker { max_tokens: 512, overlap_tokens: 0, heading_levels: vec![1, 2] };
    let chunks = chunker.chunk(&doc);

    assert!(chunks.len() >= 3, "헤딩 경계마다 분할: got {} chunks", chunks.len());
    // heading_path 가 조상 컨텍스트를 담는지.
    let sec = chunks.iter().find(|c| c.content.contains("section body")).unwrap();
    assert_eq!(sec.heading_path, vec!["Chapter 1".to_string(), "Section 1.1".to_string()]);
    let ch2 = chunks.iter().find(|c| c.content.contains("second chapter")).unwrap();
    assert_eq!(ch2.heading_path, vec!["Chapter 2".to_string()]);
}

#[test]
fn chunker_token_count_nonzero() {
    let c = HeuristicTokenCounter;
    assert!(c.count("hello world foo bar") > 0);
    assert!(c.count("한글 토큰 카운트 테스트") >= 8); // CJK 글자당 ~1 토큰

    let mut doc = Document::new(DocumentMetadata::new(SourceFormat::Markdown, "x.md"));
    doc.push(Block::Paragraph(vec![Inline::text("some content here")]));
    let chunks = SemanticChunker::default().chunk(&doc);
    assert_eq!(chunks.len(), 1);
    assert!(chunks[0].token_count > 0);
}

#[test]
fn registry_lists_parsers_and_supports_extensions() {
    let r = ParserRegistry::with_defaults();
    let names = r.parser_names();
    for expected in ["docx", "pptx", "xlsx", "hwpx", "pdf", "html", "markdown"] {
        assert!(names.contains(&expected), "{expected} 파서 등록됨");
    }
}

#[test]
fn registry_unsupported_format_errors() {
    let r = ParserRegistry::with_defaults();
    let err = r
        .parse_reader(b"random", "x.zzz", Some("zzz"))
        .unwrap_err();
    assert!(matches!(
        err,
        ConvertError::UnsupportedFormat(_)
    ));
}

#[test]
fn pptx_table_extraction() {
    // DrawingML 표(<a:tbl>)가 GFM 표로 추출되는지.
    let cell =
        |t: &str| format!("<a:tc><a:txBody><a:p><a:r><a:t>{t}</a:t></a:r></a:p></a:txBody></a:tc>");
    let slide = format!(
        r#"<?xml version="1.0"?>
        <p:sld xmlns:p="p" xmlns:a="a"><p:cSld><p:spTree>
          <p:graphicFrame><a:graphic><a:graphicData><a:tbl>
            <a:tr>{}{}</a:tr>
            <a:tr>{}{}</a:tr>
          </a:tbl></a:graphicData></a:graphic></p:graphicFrame>
        </p:spTree></p:cSld></p:sld>"#,
        cell("H1"),
        cell("H2"),
        cell("a"),
        cell("b"),
    );
    let zip = build_zip(&[("ppt/slides/slide1.xml", &slide)]);
    let md = convert(zip, "pptx", "deck.pptx");
    assert!(md.contains("| H1 | H2 |"), "pptx table header:\n{md}");
    assert!(md.contains("| --- | --- |"), "pptx table sep:\n{md}");
    assert!(md.contains("| a | b |"), "pptx table row:\n{md}");
}

#[test]
fn pptx_image_extraction() {
    // <p:pic>/<a:blip r:embed> → 슬라이드 .rels 로 media 를 찾아 data URI 이미지로.
    let slide = r#"<?xml version="1.0"?>
        <p:sld xmlns:p="p" xmlns:a="a" xmlns:r="r"><p:cSld><p:spTree>
          <p:pic><p:blipFill><a:blip r:embed="rId1"/></p:blipFill></p:pic>
        </p:spTree></p:cSld></p:sld>"#;
    let rels = r#"<?xml version="1.0"?>
        <Relationships xmlns="http://schemas.openxmlformats.org/package/2006/relationships">
          <Relationship Id="rId1" Type="img" Target="../media/image1.png"/>
        </Relationships>"#;
    let zip = build_zip(&[
        ("ppt/slides/slide1.xml", slide),
        ("ppt/slides/_rels/slide1.xml.rels", rels),
        ("ppt/media/image1.png", "PNGDATA"),
    ]);
    let md = convert(zip, "pptx", "deck.pptx");
    // alt = media 파일 stem, data URI = image/png base64.
    assert!(
        md.contains("![image1](data:image/png;base64,"),
        "pptx embedded image:\n{md}"
    );
}

#[test]
fn docx_image_extraction() {
    // <w:drawing>/<a:blip r:embed> → document.xml.rels 로 media 를 찾아 data URI 이미지로.
    let document = r#"<?xml version="1.0"?>
        <w:document xmlns:w="http://schemas.openxmlformats.org/wordprocessingml/2006/main"
                    xmlns:a="a" xmlns:r="r">
          <w:body>
            <w:p><w:r><w:t>before</w:t></w:r></w:p>
            <w:p><w:r><w:drawing><a:blip r:embed="rId5"/></w:drawing></w:r></w:p>
          </w:body>
        </w:document>"#;
    let rels = r#"<?xml version="1.0"?>
        <Relationships xmlns="http://schemas.openxmlformats.org/package/2006/relationships">
          <Relationship Id="rId5" Type="img" Target="media/photo.jpeg"/>
        </Relationships>"#;
    let zip = build_zip(&[
        ("word/document.xml", document),
        ("word/_rels/document.xml.rels", rels),
        ("word/media/photo.jpeg", "JPEGDATA"),
    ]);
    let md = convert(zip, "docx", "r.docx");
    assert!(md.contains("before"), "docx text still parsed:\n{md}");
    assert!(
        md.contains("![photo](data:image/jpeg;base64,"),
        "docx embedded image:\n{md}"
    );
}

#[test]
fn hwpx_image_extraction() {
    // content.hpf 매니페스트 + 본문 binaryItemIDRef → BinData 이미지를 data URI 로.
    let header = r#"<?xml version="1.0"?><hh:head xmlns:hh="hh"></hh:head>"#;
    let content_hpf = r#"<?xml version="1.0"?>
        <opf:package xmlns:opf="http://www.idpf.org/2007/opf/"><opf:manifest>
          <opf:item id="image1" href="BinData/image1.png" media-type="image/png" isEmbeded="1"/>
        </opf:manifest></opf:package>"#;
    let section = r#"<?xml version="1.0"?>
        <hs:sec xmlns:hs="hs" xmlns:hp="hp" xmlns:hc="hc">
          <hp:p><hp:run><hp:pic><hc:img binaryItemIDRef="image1"/></hp:pic></hp:run></hp:p>
          <hp:p><hp:run><hp:t>hello hwpx</hp:t></hp:run></hp:p>
        </hs:sec>"#;
    let zip = build_zip(&[
        ("Contents/header.xml", header),
        ("Contents/content.hpf", content_hpf),
        ("Contents/section0.xml", section),
        ("BinData/image1.png", "PNGBYTES"),
    ]);
    let md = convert(zip, "hwpx", "doc.hwpx");
    assert!(md.contains("hello hwpx"), "hwpx text still parsed:\n{md}");
    assert!(
        md.contains("![image1](data:image/png;base64,"),
        "hwpx embedded image:\n{md}"
    );
}

#[test]
fn registry_file_dispatch_by_extension() {
    let r = ParserRegistry::with_defaults();
    assert!(r.is_supported("rmt_test_dispatch.md", None));
    let md = r.convert_to_markdown("rmt_test_dispatch.md", b"# Hi\n\nbody\n").unwrap();
    assert!(md.contains("# Hi"));
    assert!(md.contains("body"));
}

#[test]
fn html_to_markdown() {
    let src = r#"<!doctype html><html><head><title>Doc Title</title>
        <style>.x{}</style></head>
        <body>
          <nav>skip me</nav>
          <article>
            <h1>Heading One</h1>
            <p>Para with <strong>bold</strong> and <a href="https://e.com">link</a>.</p>
            <ul><li>one</li><li>two<ul><li>nested</li></ul></li></ul>
            <pre><code class="language-rust">fn main() {}</code></pre>
            <table><tr><th>A</th><th>B</th></tr><tr><td>1</td><td>2</td></tr></table>
          </article>
        </body></html>"#;
    let md = convert(src.as_bytes().to_vec(), "html", "page.html");

    assert!(md.contains("title: Doc Title"));
    assert!(md.contains("# Heading One"));
    assert!(md.contains("**bold**"));
    assert!(md.contains("[link](https://e.com)"));
    assert!(md.contains("- one"));
    assert!(md.contains("  - nested"), "nested:\n{md}");
    assert!(md.contains("```rust"), "code fence lang:\n{md}");
    assert!(md.contains("fn main() {}"));
    assert!(md.contains("| A | B |"));
    assert!(!md.contains("skip me"), "nav boilerplate removed:\n{md}");
    assert!(!md.contains(".x{}"), "style removed");
}

#[test]
fn xlsx_basic() {
    let content_types = r#"<?xml version="1.0"?>
        <Types xmlns="http://schemas.openxmlformats.org/package/2006/content-types">
          <Default Extension="rels" ContentType="application/vnd.openxmlformats-package.relationships+xml"/>
          <Default Extension="xml" ContentType="application/xml"/>
          <Override PartName="/xl/workbook.xml" ContentType="application/vnd.openxmlformats-officedocument.spreadsheetml.sheet.main+xml"/>
          <Override PartName="/xl/worksheets/sheet1.xml" ContentType="application/vnd.openxmlformats-officedocument.spreadsheetml.worksheet+xml"/>
        </Types>"#;
    let root_rels = r#"<?xml version="1.0"?>
        <Relationships xmlns="http://schemas.openxmlformats.org/package/2006/relationships">
          <Relationship Id="rId1" Type="http://schemas.openxmlformats.org/officeDocument/2006/relationships/officeDocument" Target="xl/workbook.xml"/>
        </Relationships>"#;
    let workbook = r#"<?xml version="1.0"?>
        <workbook xmlns="http://schemas.openxmlformats.org/spreadsheetml/2006/main"
                  xmlns:r="http://schemas.openxmlformats.org/officeDocument/2006/relationships">
          <sheets><sheet name="Data" sheetId="1" r:id="rId1"/></sheets>
        </workbook>"#;
    let wb_rels = r#"<?xml version="1.0"?>
        <Relationships xmlns="http://schemas.openxmlformats.org/package/2006/relationships">
          <Relationship Id="rId1" Type="http://schemas.openxmlformats.org/officeDocument/2006/relationships/worksheet" Target="worksheets/sheet1.xml"/>
        </Relationships>"#;
    let sheet1 = r#"<?xml version="1.0"?>
        <worksheet xmlns="http://schemas.openxmlformats.org/spreadsheetml/2006/main">
          <sheetData>
            <row r="1">
              <c r="A1" t="inlineStr"><is><t>Name</t></is></c>
              <c r="B1" t="inlineStr"><is><t>Age</t></is></c>
            </row>
            <row r="2">
              <c r="A2" t="inlineStr"><is><t>Alice</t></is></c>
              <c r="B2"><v>30</v></c>
            </row>
          </sheetData>
        </worksheet>"#;
    let zip = build_zip(&[
        ("[Content_Types].xml", content_types),
        ("_rels/.rels", root_rels),
        ("xl/workbook.xml", workbook),
        ("xl/_rels/workbook.xml.rels", wb_rels),
        ("xl/worksheets/sheet1.xml", sheet1),
    ]);

    let md = convert(zip, "xlsx", "book.xlsx");
    assert!(md.contains("## Data"), "sheet heading:\n{md}");
    assert!(md.contains("| Name | Age |"), "header row:\n{md}");
    assert!(md.contains("| Alice | 30 |"), "data row:\n{md}");
}

fn pdf_dict(entries: Vec<(&str, lopdf::Object)>) -> lopdf::Dictionary {
    let mut d = lopdf::Dictionary::new();
    for (k, v) in entries {
        d.set(k, v);
    }
    d
}

/// A one-page PDF that shows `text` in Helvetica 24 at (72, 700), with the
/// given extra resources, trailer `/Info` title and images.
fn build_pdf(text: &str, title: Option<&str>, jpeg: Option<&[u8]>) -> Vec<u8> {
    let mut doc = lopdf::Document::with_version("1.5");
    let pages_id = doc.new_object_id();
    let font_id = doc.add_object(pdf_dict(vec![
        ("Type", Object::from("Font")),
        ("Subtype", Object::from("Type1")),
        ("BaseFont", Object::from("Helvetica")),
    ]));
    let mut res = vec![("Font", Object::from(pdf_dict(vec![("F1", Object::from(font_id))])))];
    if let Some(bytes) = jpeg {
        let image_id = doc.add_object(Stream::new(
            pdf_dict(vec![
                ("Type", Object::from("XObject")),
                ("Subtype", Object::from("Image")),
                ("Width", Object::from(2)),
                ("Height", Object::from(2)),
                ("ColorSpace", Object::from("DeviceRGB")),
                ("BitsPerComponent", Object::from(8)),
                ("Filter", Object::from("DCTDecode")),
            ]),
            bytes.to_vec(),
        ));
        res.push(("XObject", Object::from(pdf_dict(vec![("Im1", Object::from(image_id))]))));
    }
    let resources_id = doc.add_object(pdf_dict(res));
    let content = Content {
        operations: vec![
            Operation::new("BT", vec![]),
            Operation::new("Tf", vec!["F1".into(), 24.into()]),
            Operation::new("Td", vec![72.into(), 700.into()]),
            Operation::new("Tj", vec![Object::string_literal(text)]),
            Operation::new("ET", vec![]),
        ],
    };
    let content_id = doc.add_object(Stream::new(pdf_dict(vec![]), content.encode().unwrap()));
    let page_id = doc.add_object(pdf_dict(vec![
        ("Type", Object::from("Page")),
        ("Parent", Object::from(pages_id)),
        ("Contents", Object::from(content_id)),
        ("MediaBox", Object::from(vec![0.into(), 0.into(), 612.into(), 792.into()])),
        ("Resources", Object::from(resources_id)),
    ]));
    let pages = pdf_dict(vec![
        ("Type", Object::from("Pages")),
        ("Kids", Object::from(vec![Object::from(page_id)])),
        ("Count", Object::from(1)),
    ]);
    doc.objects.insert(pages_id, Object::Dictionary(pages));
    let catalog_id =
        doc.add_object(pdf_dict(vec![("Type", Object::from("Catalog")), ("Pages", Object::from(pages_id))]));
    doc.trailer.set("Root", catalog_id);
    if let Some(t) = title {
        let info_id = doc.add_object(pdf_dict(vec![("Title", Object::string_literal(t))]));
        doc.trailer.set("Info", info_id);
    }
    let mut buf = Vec::new();
    doc.save_to(&mut buf).unwrap();
    buf
}

#[test]
fn pdf_basic() {
    let buf = build_pdf("Hello PDF World", Some("My PDF Title"), None);
    let md = convert(buf, "pdf", "doc.pdf");
    assert!(md.contains("source_format: pdf"));
    assert!(md.contains("page_count: 1"), "page count from lopdf:\n{md}");
    assert!(md.contains("title: My PDF Title"), "Info title:\n{md}");
    assert!(md.contains("Hello PDF World"), "extracted text:\n{md}");
}

#[test]
fn pdf_magic_bytes_detected() {
    let p = rust_markdown_transformer::parsers::PdfParser;
    assert!(p.can_parse_bytes(b"%PDF-1.7\n..."));
    assert!(!p.can_parse_bytes(b"PK\x03\x04"));
}

#[test]
fn pdf_image_extraction() {
    let buf = build_pdf("Picture page", None, Some(b"FAKEJPEGDATA"));
    let md = convert(buf, "pdf", "pic.pdf");
    assert!(
        md.contains("![image-") && md.contains("data:image/jpeg;base64,"),
        "pdf embedded image:\n{md}"
    );
}

#[test]
fn pdf_layout_blocks_take_precedence() {
    let buf = build_pdf("Hello PDF World", Some("My PDF Title"), None);
    let layout = vec![Block::Heading { level: 1, text: "Laid out".to_string() }];
    let parts = PdfParts { layout, page_images: Vec::new(), text: TextLayer::NotExtracted };
    let doc = parse_pdf(&buf, "doc.pdf", parts).expect("parse ok");
    assert_eq!(doc.blocks, vec![Block::Heading { level: 1, text: "Laid out".to_string() }]);
    assert_eq!(doc.metadata.page_count, Some(1));
    assert_eq!(doc.metadata.title.as_deref(), Some("My PDF Title"));

    let doc = parse_pdf(&buf, "doc.pdf", pdf_parts(&buf)).expect("parse ok");
    assert!(doc.blocks.iter().any(|b| matches!(b, Block::Paragraph(_))));
}

#[test]
fn registry_hands_layout_to_pdf_only() {
    let registry = ParserRegistry::with_defaults();
    let buf = build_pdf("Hello PDF World", None, None);
    let layout = vec![Block::Heading { level: 2, text: "From layout".to_string() }];
    let parts = PdfParts { layout, page_images: Vec::new(), text: TextLayer::NotExtracted };
    let doc = registry.parse_to_ir_with_pdf_parts("in/doc.pdf", &buf, parts).expect("parse ok");
    assert_eq!(doc.blocks, vec![Block::Heading { level: 2, text: "From layout".to_string() }]);
    assert_eq!(doc.metadata.original_filename, "doc.pdf");

    let layout = vec![Block::Heading { level: 2, text: "ignored".to_string() }];
    let parts = PdfParts { layout, page_images: Vec::new(), text: TextLayer::NotExtracted };
    let doc = registry.parse_to_ir_with_pdf_parts("notes.md", b"plain\n", parts).expect("parse ok");
    assert_eq!(doc.blocks, vec![Block::Paragraph(vec![Inline::Text("plain".to_string())])]);
}

#[test]
fn pdf_unreadable_is_a_container_error() {
    let bytes = b"%PDF-1.4\nthis is not a pdf body";
    let r = parse_pdf(bytes, "bad.pdf", pdf_parts(bytes));
    match r {
        Err(ParseError::Container { format, detail }) => {
            assert_eq!(format, "pdf");
            assert!(detail.starts_with("text extraction failed: "), "{detail}");
        }
        other => panic!("expected a container error, got {other:?}"),
    }
}

fn parse_error(bytes: Vec<u8>, ext: &str, name: &str) -> ParseError {
    let registry = ParserRegistry::with_defaults();
    match registry.parse_reader(&bytes, name, Some(ext)) {
        Err(ConvertError::Parse(e)) => e,
        Err(e) => panic!("expected a parse error, got {e:?}"),
        Ok(d) => panic!("expected a parse error, got {d:?}"),
    }
}

#[test]
fn docx_without_document_part_is_a_container_error() {
    let zip = build_zip(&[("word/styles.xml", "<w:styles xmlns:w=\"w\"/>")]);
    match parse_error(zip, "docx", "r.docx") {
        ParseError::Container { format, detail } => {
            assert_eq!(format, "docx");
            assert_eq!(detail, "missing word/document.xml");
        }
        e => panic!("{e:?}"),
    }
}

#[test]
fn docx_that_is_not_a_zip_is_a_container_error() {
    match parse_error(b"not a zip at all".to_vec(), "docx", "r.docx") {
        ParseError::Container { format, detail } => {
            assert_eq!(format, "docx");
            assert!(detail.starts_with("zip open: "), "{detail}");
        }
        e => panic!("{e:?}"),
    }
}

#[test]
fn docx_with_broken_xml_is_a_markup_error() {
    let zip = build_zip(&[("word/document.xml", "<w:document><w:body></w:document>")]);
    match parse_error(zip, "docx", "r.docx") {
        ParseError::Markup { format, .. } => assert_eq!(format, "docx"),
        e => panic!("{e:?}"),
    }
}

#[test]
fn hwpx_without_sections_is_a_container_error() {
    let zip = build_zip(&[("Contents/header.xml", "<hh:head xmlns:hh=\"hh\"/>")]);
    match parse_error(zip, "hwpx", "doc.hwpx") {
        ParseError::Container { format, detail } => {
            assert_eq!(format, "hwpx");
            assert_eq!(detail, "no Contents/section*.xml");
        }
        e => panic!("{e:?}"),
    }
}

#[test]
fn markdown_that_is_not_utf8_is_an_encoding_error() {
    match parse_error(vec![b'#', b' ', 0xFF, 0xFE], "md", "bad.md") {
        ParseError::Encoding { format, detail } => {
            assert_eq!(format, "markdown");
            assert!(!detail.is_empty());
        }
        e => panic!("{e:?}"),
    }
}

#[test]
fn xlsx_that_is_not_a_workbook_is_a_container_error() {
    match parse_error(b"plain text".to_vec(), "xlsx", "book.xlsx") {
        ParseError::Container { format, detail } => {
            assert_eq!(format, "xlsx");
            assert!(detail.starts_with("open: "), "{detail}");
        }
        e => panic!("{e:?}"),
    }
}

#[test]
fn pdf_images_extracted_apart() {
    let buf = build_pdf("Picture page", None, Some(b"FAKEJPEGDATA"));
    let parts = pdf_parts(&buf);
    let images = page_image_blocks(&parts.page_images);
    assert_eq!(images.len(), 1);
    match &images[0] {
        Block::Image { alt, .. } => assert!(alt.starts_with("image-"), "{alt}"),
        b => panic!("{b:?}"),
    }
    let without = PdfParts { layout: Vec::new(), page_images: Vec::new(), text: pdf_parts(&buf).text };
    let doc = parse_pdf(&buf, "pic.pdf", without).expect("parse ok");
    assert!(!doc.blocks.iter().any(|b| matches!(b, Block::Image { .. })));
    let doc = parse_pdf(&buf, "pic.pdf", parts).expect("parse ok");
    assert!(matches!(doc.blocks.last(), Some(Block::Image { .. })));
    assert!(page_image_blocks(&vec![None]).is_empty());
}

#[test]
fn pdf_image_kept_only_for_jpeg_filters() {
    let img = |filters: Option<Vec<&str>>| PdfImage {
        id0: 7,
        id1: 0,
        filters: filters.map(|f| f.into_iter().map(String::from).collect()),
        content: b"abc".to_vec(),
    };
    let pages = vec![Some(vec![img(Some(vec!["DCTDecode"])), img(Some(vec!["FlateDecode"])), img(None)]), None,
        Some(vec![img(Some(vec!["JPXDecode"]))])];
    let blocks = page_image_blocks(&pages);
    assert_eq!(blocks.len(), 2);
    match (&blocks[0], &blocks[1]) {
        (Block::Image { alt: a0, data: d0 }, Block::Image { alt: a1, data: d1 }) => {
            assert_eq!(a0, "image-7-0");
            assert_eq!(a1, "image-7-0");
            assert_eq!(
                *d0,
                rust_markdown_transformer::ImageData::Base64 { mime: "image/jpeg".to_string(), data: "YWJj".to_string() }
            );
            assert_eq!(
                *d1,
                rust_markdown_transformer::ImageData::Base64 { mime: "image/jp2".to_string(), data: "YWJj".to_string() }
            );
        }
        other => panic!("{other:?}"),
    }
}

#[test]
fn pdf_text_extraction_panic_is_a_container_error() {
    let buf = build_pdf("Hello PDF World", None, None);
    let parts = PdfParts { layout: Vec::new(), page_images: Vec::new(), text: TextLayer::Panicked };
    match parse_pdf(&buf, "doc.pdf", parts) {
        Err(ParseError::Container { format, detail }) => {
            assert_eq!(format, "pdf");
            assert_eq!(detail, "pdf-extract panicked on malformed PDF");
        }
        other => panic!("expected a container error, got {other:?}"),
    }
    let parts = PdfParts { layout: Vec::new(), page_images: Vec::new(), text: TextLayer::Failed("bad xref".to_string()) };
    match parse_pdf(b"junk", "doc.pdf", parts) {
        Err(ParseError::Container { detail, .. }) => assert_eq!(detail, "text extraction failed: bad xref"),
        other => panic!("expected a container error, got {other:?}"),
    }
}

#[test]
fn pdf_without_text_layer_is_unsupported() {
    let buf = build_pdf("Hello PDF World", None, None);
    match rust_markdown_transformer::parsers::PdfParser.parse(&buf, "doc.pdf") {
        Err(ParseError::Unsupported { format, detail }) => {
            assert_eq!(format, "pdf");
            assert_eq!(detail, "the text layer was not extracted");
        }
        other => panic!("expected an unsupported error, got {other:?}"),
    }
    let text = TextLayer::Extracted("one\n\ntwo\u{0C}three".to_string());
    let doc = parse_pdf(b"not a pdf", "x.pdf", PdfParts { layout: Vec::new(), page_images: Vec::new(), text })
        .expect("parse ok");
    assert_eq!(doc.metadata.page_count, None);
    assert_eq!(doc.blocks.len(), 4);
    assert_eq!(doc.blocks[2], Block::PageBreak);
}

#[test]
fn pptx_bold_italic_run_is_kept() {
    let slide = r#"<p:sld xmlns:p="p" xmlns:a="a"><p:cSld><p:spTree><p:sp><p:txBody><a:p><a:r><a:rPr b="1" i="1"/><a:t>x</a:t></a:r></a:p></p:txBody></p:sp></p:spTree></p:cSld></p:sld>"#;
    let zip = build_zip(&[("ppt/slides/slide1.xml", slide)]);
    let md = convert(zip, "pptx", "deck.pptx");
    assert!(md.contains("***x***"), "{md}");
}

#[test]
fn package_names_matching_in_natural_order() {
    let zip = build_zip(&[
        ("ppt/slides/slide10.xml", "a"),
        ("ppt/slides/slide2.xml", "b"),
        ("ppt/slides/slide1.xml", "c"),
        ("ppt/slides/_rels/slide1.xml.rels", "d"),
    ]);
    let pkg = OoxmlPackage::from_reader(&zip, "pptx").expect("zip ok");
    assert_eq!(
        pkg.names_matching("ppt/slides/slide", ".xml"),
        vec!["ppt/slides/slide1.xml", "ppt/slides/slide2.xml", "ppt/slides/slide10.xml"]
    );
}
