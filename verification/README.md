# rust_markdown_transformer

Turns DOCX, PPTX, XLSX, HWPX, PDF, HTML and Markdown documents into one
format-neutral intermediate representation (IR), renders that IR as Markdown
with YAML front matter, and cuts it into heading-aware chunks for vector
stores.

## Layout

- `src/` is the library, written in Verus.  Every function states its
  behaviour in `requires` / `ensures` over mathematical models (`...V` types,
  `Seq`, spec functions), and Verus proves it.
  - `ir.rs`: the IR and its models; `renderer.rs`: IR to Markdown;
    `chunker.rs`: semantic chunking and token counting; `registry.rs`: the
    `FormatParser` trait and dispatch by extension, then magic bytes;
    `media.rs`: base64, MIME types, file stems; `text.rs`, `strs.rs`: string
    specifications and their executable counterparts; `error.rs`.
  - `parsers/`: one module per format, plus `xml.rs` (quick-xml events),
    `ooxml.rs` (zip packages), `natural.rs` (natural file-name order) and
    `common.rs` (shared table and style helpers).
  - Calls into zip, quick-xml, calamine, pulldown-cmark, scraper, lopdf
    and chrono go through small trusted wrappers whose contracts either state
    what the outside crate documents or name its result; the logic around
    them is verified.  Each outside handle (`xml_reader.rs`, `zip_source.rs`,
    `md_source.rs`, `html_source.rs`, `xlsx_source.rs`, `pdf_source.rs`)
    lives in a module of its own, built only by the wrapper that opens it.
  - Public proof functions named `law_...` state properties that span
    functions (dispatch priorities, base64 and rendering algebra, chunk
    structure, byte-order-mark handling, the shape of the PDF text path).
- `tests/` exercises the library end to end.
- `app/` is the `rmt` command-line tool: file and stdin I/O, parallel batch
  conversion, JSONL output, and what the PDF parser takes besides the bytes
  (`PdfParts`): the layout analysis (glyph coordinates and font sizes are
  floating point), and pdf-extract's text and lopdf's page images, run with
  their panics caught.
