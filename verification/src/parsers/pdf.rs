//! PDF: title / author / page count from lopdf; the body from the blocks a
//! layout analysis found, or else from the text layer extracted with
//! pdf-extract (form feeds separate pages, blank lines paragraphs); then the
//! embedded JPEG / JPEG 2000 images of each page.
//!
//! pdf-extract, and lopdf's listing of a page's images, panic on some
//! malformed documents, and a panic cannot be caught here: the caller runs
//! them, isolated, and hands over what they gave as [`PdfParts`].

use vstd::prelude::*;
use crate::error::{container_error, unsupported_error, ParseError, ParseErrorKind, ParseErrorV};
use crate::ir;
use crate::ir::{
    blocks_view, inlines_view, opt_str_view, Block, BlockV, DocumentMetadata, DocumentV, ImageData,
    ImageDataV, Inline, InlineV, MetadataV, SourceFormat,
};
use crate::media::{base64_encode, base64_spec};
use crate::parsers::ooxml::concat3;
use crate::parsers::pdf_source::{info_bytes, page_ids, pdf_open, PdfDoc};
use crate::registry::{parse_result_view, FormatParser};
use crate::strs::{decimal, decimal_string, join, join_strings, lines, lines_of, split_on, split_on_char, trim, trim_string};
use crate::text::{collapse, collapse_ws, concat, copy_string, is_blank, is_blank_str, push_char, str_eq};

verus! {

/// An image XObject of a page: its object id, its filters and its stream bytes.
pub struct PdfImageV {
    pub id0: u32,
    pub id1: u16,
    pub filters: Option<Seq<Seq<char>>>,
    pub content: Seq<u8>,
}

/// An image XObject of a page, as `Document::get_page_images` lists it.
pub struct PdfImage {
    pub id0: u32,
    pub id1: u16,
    pub filters: Option<Vec<String>>,
    pub content: Vec<u8>,
}

pub open spec fn pdf_image_view(i: PdfImage) -> PdfImageV {
    PdfImageV {
        id0: i.id0,
        id1: i.id1,
        filters: filters_view(i.filters),
        content: i.content@,
    }
}

pub open spec fn filters_view(f: Option<Vec<String>>) -> Option<Seq<Seq<char>>> {
    match f {
        Some(f) => Some(f.deep_view()),
        None => None,
    }
}

pub open spec fn pdf_images_view(s: Seq<PdfImage>) -> Seq<PdfImageV> {
    s.map_values(|i: PdfImage| pdf_image_view(i))
}

/// The images of each page, in page order: `None` for a page whose images
/// could not be read.
pub open spec fn page_images_view(s: Seq<Option<Vec<PdfImage>>>) -> Seq<Option<Seq<PdfImageV>>> {
    s.map_values(
        |p: Option<Vec<PdfImage>>|
            match p {
                Some(v) => Some(pdf_images_view(v@)),
                None => None,
            },
    )
}

/// What text extraction (`pdf_extract::extract_text_from_mem`) gave.
pub enum TextLayerV {
    Extracted(Seq<char>),
    Failed(Seq<char>),
    Panicked,
    NotExtracted,
}

/// What text extraction gave for a document: its text, the message of its
/// error, nothing because it panicked, or nothing because it was not run
/// (the text layer is read only when the layout analysis found no blocks).
pub enum TextLayer {
    Extracted(String),
    Failed(String),
    Panicked,
    NotExtracted,
}

impl View for TextLayer {
    type V = TextLayerV;

    open spec fn view(&self) -> TextLayerV {
        match self {
            TextLayer::Extracted(t) => TextLayerV::Extracted(t@),
            TextLayer::Failed(m) => TextLayerV::Failed(m@),
            TextLayer::Panicked => TextLayerV::Panicked,
            TextLayer::NotExtracted => TextLayerV::NotExtracted,
        }
    }
}

/// What a PDF parse takes besides the bytes.
pub struct PdfPartsV {
    pub layout: Seq<BlockV>,
    pub pages: Seq<Option<Seq<PdfImageV>>>,
    pub text: TextLayerV,
}

/// What a PDF parse takes besides the bytes, gathered by the caller: the
/// blocks a layout analysis of the loaded document found (headings and
/// reading order from the glyph positions), the images of each page, and the
/// extracted text layer.
pub struct PdfParts {
    pub layout: Vec<Block>,
    pub page_images: Vec<Option<Vec<PdfImage>>>,
    pub text: TextLayer,
}

impl View for PdfParts {
    type V = PdfPartsV;

    open spec fn view(&self) -> PdfPartsV {
        PdfPartsV { layout: blocks_view(self.layout@), pages: page_images_view(self.page_images@), text: self.text@ }
    }
}

/// No layout blocks, no images, no text layer: what the parser has when the
/// caller gathered nothing.
pub open spec fn no_parts() -> PdfPartsV {
    PdfPartsV { layout: Seq::empty(), pages: Seq::empty(), text: TextLayerV::NotExtracted }
}

impl PdfParts {
    /// No layout blocks, no images, no text layer.
    pub fn none() -> (r: PdfParts)
        ensures
            r@ == no_parts(),
    {
        let r = PdfParts { layout: Vec::new(), page_images: Vec::new(), text: TextLayer::NotExtracted };
        assert(r@.layout =~= Seq::<BlockV>::empty());
        assert(r@.pages =~= Seq::<Option<Seq<PdfImageV>>>::empty());
        r
    }
}

/// Whether `lopdf::Document::load_mem` loads the bytes.
pub uninterp spec fn pdf_loads(bytes: Seq<u8>) -> bool;

/// The object ids of the pages, in page order (`Document::get_pages`).
pub uninterp spec fn pdf_pages(bytes: Seq<u8>) -> Seq<(u32, u16)>;

/// The bytes of the string stored under `key` in the trailer's `/Info`
/// dictionary (following a reference), when there is one.
pub uninterp spec fn pdf_info(bytes: Seq<u8>, key: Seq<char>) -> Option<Seq<u8>>;

/// Whether a code point is a Unicode scalar value (what a `char` holds).
pub open spec fn is_scalar_value(u: u32) -> bool {
    u <= 0xD7FF || (0xE000 <= u && u <= 0x10FFFF)
}

/// `char::from_u32`: the character with that code point, when it is a
/// Unicode scalar value.
#[verifier::external_body]
fn char_of_code(u: u32) -> (r: Option<char>)
    ensures
        r is Some == is_scalar_value(u),
        r matches Some(c) ==> c == u as char,
{
    char::from_u32(u)
}

/// UTF-16 decoding with replacement (`String::from_utf16_lossy`): a high
/// surrogate followed by a low one makes one supplementary character, any
/// other surrogate becomes U+FFFD, every other unit is its own character.
pub open spec fn utf16_decode(u: Seq<u16>) -> Seq<char>
    decreases u.len(),
{
    if u.len() == 0 {
        Seq::empty()
    } else if 0xD800 <= u[0] <= 0xDBFF && u.len() >= 2 && 0xDC00 <= u[1] <= 0xDFFF {
        seq![(0x10000 + (u[0] - 0xD800) * 0x400 + (u[1] - 0xDC00)) as char] + utf16_decode(u.skip(2))
    } else if 0xD800 <= u[0] <= 0xDFFF {
        seq!['\u{FFFD}'] + utf16_decode(u.skip(1))
    } else {
        seq![u[0] as char] + utf16_decode(u.skip(1))
    }
}

/// [`utf16_decode`] computed.
pub fn decode_utf16(units: &[u16]) -> (r: String)
    ensures
        r@ == utf16_decode(units@),
{
    let mut out = String::new();
    let mut i: usize = 0;
    assert(units@.skip(0) =~= units@);
    assert(out@ + utf16_decode(units@.skip(0)) =~= utf16_decode(units@));
    while i < units.len()
        invariant
            i <= units@.len(),
            units@.len() == units.len(),
            out@ + utf16_decode(units@.skip(i as int)) == utf16_decode(units@),
        decreases units@.len() - i,
    {
        let ghost rest = units@.skip(i as int);
        let ghost before = out@;
        let u = units[i];
        assert(rest[0] == u);
        if 0xD800 <= u && u <= 0xDBFF && i + 1 < units.len() && 0xDC00 <= units[i + 1] && units[i + 1] <= 0xDFFF {
            let lo = units[i + 1];
            assert(rest[1] == lo);
            let code: u32 = 0x10000 + (u as u32 - 0xD800) * 0x400 + (lo as u32 - 0xDC00);
            let ghost v: int = 0x10000 + (rest[0] - 0xD800) * 0x400 + (rest[1] - 0xDC00);
            assert(code == v);
            assert(is_scalar_value(code));
            let c = match char_of_code(code) {
                Some(c) => c,
                None => '\u{FFFD}',
            };
            assert(c == v as char);
            assert(utf16_decode(rest) == seq![v as char] + utf16_decode(rest.skip(2)));
            push_char(&mut out, c);
            assert(rest.skip(2) =~= units@.skip(i + 2));
            assert(out@ + utf16_decode(units@.skip(i + 2)) =~= before + utf16_decode(rest));
            i = i + 2;
        } else if 0xD800 <= u && u <= 0xDFFF {
            assert(utf16_decode(rest) == seq!['\u{FFFD}'] + utf16_decode(rest.skip(1)));
            push_char(&mut out, '\u{FFFD}');
            assert(rest.skip(1) =~= units@.skip(i + 1));
            assert(out@ + utf16_decode(units@.skip(i + 1)) =~= before + utf16_decode(rest));
            i = i + 1;
        } else {
            assert(is_scalar_value(u as u32));
            let c = match char_of_code(u as u32) {
                Some(c) => c,
                None => '\u{FFFD}',
            };
            assert(c == (rest[0] as char));
            assert(utf16_decode(rest) == seq![rest[0] as char] + utf16_decode(rest.skip(1)));
            push_char(&mut out, c);
            assert(rest.skip(1) =~= units@.skip(i + 1));
            assert(out@ + utf16_decode(units@.skip(i + 1)) =~= before + utf16_decode(rest));
            i = i + 1;
        }
    }
    assert(units@.skip(i as int) =~= Seq::<u16>::empty());
    assert(out@ =~= out@ + Seq::<char>::empty());
    out
}

// ── strings of the /Info dictionary ─────────────────────────────

/// Big-endian UTF-16 code units of the bytes (a last odd byte is the high half).
pub open spec fn be_units(b: Seq<u8>) -> Seq<u16> {
    Seq::new(
        ((b.len() + 1) / 2) as nat,
        |i: int| (b[2 * i] as int * 256 + if 2 * i + 1 < b.len() { b[2 * i + 1] as int } else { 0 }) as u16,
    )
}

/// Each byte as the character with that code (PDFDocEncoding read as Latin-1).
pub open spec fn latin1(b: Seq<u8>) -> Seq<char> {
    b.map_values(|x: u8| x as char)
}

/// A PDF text string: UTF-16BE after a `FE FF` byte-order mark, else Latin-1.
pub open spec fn decode_pdf_text_spec(b: Seq<u8>) -> Seq<char> {
    if b.len() >= 2 && b[0] == 0xFEu8 && b[1] == 0xFFu8 {
        utf16_decode(be_units(b.skip(2)))
    } else {
        latin1(b)
    }
}

/// [`decode_pdf_text_spec`] computed.
pub fn decode_pdf_text(bytes: &[u8]) -> (r: String)
    ensures
        r@ == decode_pdf_text_spec(bytes@),
{
    if bytes.len() >= 2 && bytes[0] == 0xFE && bytes[1] == 0xFF {
        let ghost b = bytes@.skip(2);
        let mut units: Vec<u16> = Vec::new();
        let n = (bytes.len() - 1) / 2;
        proof {
            vstd::arithmetic::div_mod::lemma_fundamental_div_mod(bytes@.len() - 1, 2);
        }
        let mut k: usize = 0;
        while k < n
            invariant
                2 * n + 1 <= bytes@.len(),
                bytes@.len() == bytes.len(),
                bytes@.len() >= 2,
                n == (bytes@.len() - 1) / 2,
                k <= n,
                b == bytes@.skip(2),
                units@.len() == k,
                forall|j: int| 0 <= j < units@.len() ==> #[trigger] units@[j] == be_units(b)[j],
            decreases n - k,
        {
            let i = 2 * k + 2;
            let hi = bytes[i] as u16;
            let lo: u16 = if i + 1 < bytes.len() { bytes[i + 1] as u16 } else { 0 };
            let u = hi * 256 + lo;
            assert(b[2 * k] == bytes@[i as int]);
            assert(2 * k + 1 < b.len() ==> b[2 * k + 1] == bytes@[i + 1]);
            units.push(u);
            k = k + 1;
        }
        assert(units@ =~= be_units(b));
        decode_utf16(units.as_slice())
    } else {
        let mut s = String::new();
        let mut i: usize = 0;
        while i < bytes.len()
            invariant
                i <= bytes@.len(),
                s@ == latin1(bytes@.take(i as int)),
            decreases bytes@.len() - i,
        {
            push_char(&mut s, bytes[i] as char);
            i = i + 1;
            assert(latin1(bytes@.take(i as int)) =~= latin1(bytes@.take(i - 1)).push(bytes@[i - 1] as char));
        }
        assert(bytes@.take(bytes@.len() as int) =~= bytes@);
        s
    }
}

/// A title or author: the decoded string, trimmed, when anything is left.
pub open spec fn info_text_spec(raw: Option<Seq<u8>>) -> Option<Seq<char>> {
    match raw {
        Some(b) => {
            let s = trim(decode_pdf_text_spec(b));
            if s.len() > 0 {
                Some(s)
            } else {
                None
            }
        },
        None => None,
    }
}

fn info_text(d: &PdfDoc, key: &str) -> (r: Option<String>)
    ensures
        opt_str_view(r) == info_text_spec(pdf_info(d.src(), key@)),
{
    match info_bytes(d, key) {
        None => None,
        Some(b) => {
            let decoded = decode_pdf_text(b.as_slice());
            let s = trim_string(decoded.as_str());
            if s.as_str().is_empty() {
                None
            } else {
                Some(s)
            }
        },
    }
}

// ── embedded images ─────────────────────────────────────────────

/// The MIME type of an image whose stream is a complete image file:
/// `DCTDecode` is JPEG, `JPXDecode` JPEG 2000; any other filter needs the
/// samples rebuilt and is skipped.
pub open spec fn image_mime_spec(filters: Option<Seq<Seq<char>>>) -> Option<Seq<char>> {
    match filters {
        Some(fs) => if fs.contains("DCTDecode"@) {
            Some("image/jpeg"@)
        } else if fs.contains("JPXDecode"@) {
            Some("image/jp2"@)
        } else {
            None
        },
        None => None,
    }
}

/// The alt text of an embedded image: `image-<object number>-<generation>`.
pub open spec fn image_alt(id0: u32, id1: u16) -> Seq<char> {
    "image-"@ + decimal(id0 as nat) + "-"@ + decimal(id1 as nat)
}

/// The block an image gives, if its format is one that is kept.
pub open spec fn image_block_of(img: PdfImageV) -> Seq<BlockV> {
    match image_mime_spec(img.filters) {
        Some(m) => seq![
            BlockV::Image {
                alt: image_alt(img.id0, img.id1),
                data: ImageDataV::Base64 { mime: m, data: base64_spec(img.content) },
            },
        ],
        None => Seq::empty(),
    }
}

pub open spec fn image_blocks_of(imgs: Seq<PdfImageV>) -> Seq<BlockV>
    decreases imgs.len(),
{
    if imgs.len() == 0 {
        Seq::empty()
    } else {
        image_blocks_of(imgs.drop_last()) + image_block_of(imgs.last())
    }
}

/// The image blocks of the pages, page by page; a page whose images could
/// not be read gives none.
pub open spec fn pages_image_blocks(pages: Seq<Option<Seq<PdfImageV>>>) -> Seq<BlockV>
    decreases pages.len(),
{
    if pages.len() == 0 {
        Seq::empty()
    } else {
        pages_image_blocks(pages.drop_last()) + match pages.last() {
            Some(imgs) => image_blocks_of(imgs),
            None => Seq::empty(),
        }
    }
}

fn has_filter(fs: &Vec<String>, name: &str) -> (r: bool)
    ensures
        r == fs.deep_view().contains(name@),
{
    let ghost fv = fs.deep_view();
    let mut i: usize = 0;
    while i < fs.len()
        invariant
            i <= fs@.len(),
            fv == fs.deep_view(),
            fv.len() == fs@.len(),
            forall|k: int| 0 <= k < i ==> fv[k] != name@,
        decreases fs@.len() - i,
    {
        assert(fv[i as int] == fs@[i as int]@);
        if str_eq(fs[i].as_str(), name) {
            return true;
        }
        i = i + 1;
    }
    false
}

fn image_mime(filters: &Option<Vec<String>>) -> (r: Option<&'static str>)
    ensures
        match r {
            Some(m) => image_mime_spec(filters_view(*filters)) == Some(m@),
            None => image_mime_spec(filters_view(*filters)) is None,
        },
{
    match filters {
        None => None,
        Some(fs) => {
            if has_filter(fs, "DCTDecode") {
                Some("image/jpeg")
            } else if has_filter(fs, "JPXDecode") {
                Some("image/jp2")
            } else {
                None
            }
        },
    }
}

fn image_blocks(imgs: &Vec<PdfImage>) -> (r: Vec<Block>)
    ensures
        blocks_view(r@) == image_blocks_of(pdf_images_view(imgs@)),
{
    let ghost iv = pdf_images_view(imgs@);
    let mut out: Vec<Block> = Vec::new();
    let mut i: usize = 0;
    assert(blocks_view(out@) =~= image_blocks_of(iv.take(0)));
    while i < imgs.len()
        invariant
            i <= imgs@.len(),
            iv == pdf_images_view(imgs@),
            iv.len() == imgs@.len(),
            blocks_view(out@) == image_blocks_of(iv.take(i as int)),
        decreases imgs@.len() - i,
    {
        let img = &imgs[i];
        assert(iv.take(i + 1).drop_last() =~= iv.take(i as int));
        assert(iv[i as int] == pdf_image_view(*img));
        match image_mime(&img.filters) {
            Some(m) => {
                let alt = concat3("image-", decimal_string(img.id0 as usize).as_str(), "-");
                let alt = concat(alt.as_str(), decimal_string(img.id1 as usize).as_str());
                let b = Block::Image {
                    alt,
                    data: ImageData::Base64 { mime: m.to_owned(), data: base64_encode(img.content.as_slice()) },
                };
                let ghost before = blocks_view(out@);
                let ghost bv = b@;
                out.push(b);
                assert(blocks_view(out@) =~= before.push(bv));
                assert(image_block_of(iv[i as int]) =~= seq![bv]);
                assert(before.push(bv) =~= before + seq![bv]);
            },
            None => {
                assert(image_block_of(iv[i as int]) =~= Seq::<BlockV>::empty());
                assert(blocks_view(out@) =~= blocks_view(out@) + Seq::<BlockV>::empty());
            },
        }
        i = i + 1;
    }
    assert(iv.take(imgs@.len() as int) =~= iv);
    out
}

/// [`pages_image_blocks`] computed: the embedded JPEG / JPEG 2000 images
/// of the pages as image blocks.
pub fn page_image_blocks(pages: &Vec<Option<Vec<PdfImage>>>) -> (r: Vec<Block>)
    ensures
        blocks_view(r@) == pages_image_blocks(page_images_view(pages@)),
{
    let ghost pv = page_images_view(pages@);
    let mut out: Vec<Block> = Vec::new();
    let mut i: usize = 0;
    assert(blocks_view(out@) =~= pages_image_blocks(pv.take(0)));
    while i < pages.len()
        invariant
            i <= pages@.len(),
            pv == page_images_view(pages@),
            pv.len() == pages@.len(),
            blocks_view(out@) == pages_image_blocks(pv.take(i as int)),
        decreases pages@.len() - i,
    {
        assert(pv.take(i + 1).drop_last() =~= pv.take(i as int));
        assert(pv.take(i + 1).last() == pv[i as int]);
        match &pages[i] {
            Some(imgs) => {
                let mut more = image_blocks(imgs);
                let ghost before = blocks_view(out@);
                let ghost mv = blocks_view(more@);
                out.append(&mut more);
                assert(blocks_view(out@) =~= before + mv);
            },
            None => {
                assert(blocks_view(out@) =~= blocks_view(out@) + Seq::<BlockV>::empty());
            },
        }
        i = i + 1;
    }
    assert(pv.take(pages@.len() as int) =~= pv);
    out
}

// ── the text layer ──────────────────────────────────────────────

/// What closing a paragraph adds: its lines joined by spaces with runs of
/// whitespace collapsed, when that is not empty.
pub open spec fn flush_spec(cur: Seq<Seq<char>>) -> Seq<Seq<char>> {
    if cur.len() > 0 && collapse(join(cur, " "@)).len() > 0 {
        seq![collapse(join(cur, " "@))]
    } else {
        Seq::empty()
    }
}

/// The paragraphs closed so far and the lines of the open one, after the
/// given lines: a blank line closes the open paragraph.
pub open spec fn para_state(ls: Seq<Seq<char>>) -> (Seq<Seq<char>>, Seq<Seq<char>>)
    decreases ls.len(),
{
    if ls.len() == 0 {
        (Seq::empty(), Seq::empty())
    } else {
        let st = para_state(ls.drop_last());
        if is_blank(ls.last()) {
            (st.0 + flush_spec(st.1), Seq::empty())
        } else {
            (st.0, st.1.push(ls.last()))
        }
    }
}

/// The paragraphs of a page: blank lines separate them, the single line
/// breaks inside one fold into spaces.
pub open spec fn split_paragraphs_spec(page: Seq<char>) -> Seq<Seq<char>> {
    let st = para_state(lines(page));
    st.0 + flush_spec(st.1)
}

pub open spec fn para_block(p: Seq<char>) -> BlockV {
    BlockV::Paragraph(seq![InlineV::Text(p)])
}

pub open spec fn para_blocks(ps: Seq<Seq<char>>) -> Seq<BlockV> {
    ps.map_values(|p: Seq<char>| para_block(p))
}

pub open spec fn page_blocks(page: Seq<char>) -> Seq<BlockV> {
    para_blocks(split_paragraphs_spec(page))
}

/// The blocks of the pages: a page break between two pages, the paragraphs
/// of each page.
pub open spec fn pages_blocks(pages: Seq<Seq<char>>) -> Seq<BlockV>
    decreases pages.len(),
{
    if pages.len() == 0 {
        Seq::empty()
    } else {
        let prev = pages_blocks(pages.drop_last());
        (if pages.len() > 1 {
            prev.push(BlockV::PageBreak)
        } else {
            prev
        }) + page_blocks(pages.last())
    }
}

/// Extracted text as blocks: form feeds separate pages.
pub open spec fn text_blocks_spec(text: Seq<char>) -> Seq<BlockV> {
    pages_blocks(split_on(text, '\u{0C}'))
}

fn flush(cur: &mut Vec<String>, paras: &mut Vec<String>)
    ensures
        final(paras).deep_view() == old(paras).deep_view() + flush_spec(old(cur).deep_view()),
        final(cur).deep_view() == Seq::<Seq<char>>::empty(),
{
    if cur.len() > 0 {
        let joined = join_strings(cur, " ");
        let collapsed = collapse_ws(joined.as_str());
        if !collapsed.as_str().is_empty() {
            let ghost before = paras.deep_view();
            let ghost cv = collapsed@;
            paras.push(collapsed);
            assert(paras.deep_view() =~= before + seq![cv]);
        } else {
            assert(paras.deep_view() =~= paras.deep_view() + Seq::<Seq<char>>::empty());
        }
        *cur = Vec::new();
    } else {
        assert(paras.deep_view() =~= paras.deep_view() + Seq::<Seq<char>>::empty());
    }
    assert(cur.deep_view() =~= Seq::<Seq<char>>::empty());
}

/// [`split_paragraphs_spec`] computed.
pub fn split_paragraphs(page: &str) -> (r: Vec<String>)
    ensures
        r.deep_view() == split_paragraphs_spec(page@),
{
    let ls = lines_of(page);
    let ghost lv = ls.deep_view();
    let mut paras: Vec<String> = Vec::new();
    let mut cur: Vec<String> = Vec::new();
    let mut i: usize = 0;
    assert(lv.take(0) =~= Seq::<Seq<char>>::empty());
    assert(paras.deep_view() =~= Seq::<Seq<char>>::empty());
    assert(cur.deep_view() =~= Seq::<Seq<char>>::empty());
    while i < ls.len()
        invariant
            i <= ls@.len(),
            lv == ls.deep_view(),
            lv == lines(page@),
            lv.len() == ls@.len(),
            (paras.deep_view(), cur.deep_view()) == para_state(lv.take(i as int)),
        decreases ls@.len() - i,
    {
        assert(lv.take(i + 1).drop_last() =~= lv.take(i as int));
        assert(lv.take(i + 1).last() == lv[i as int]);
        assert(lv[i as int] == ls@[i as int]@);
        if is_blank_str(ls[i].as_str()) {
            flush(&mut cur, &mut paras);
        } else {
            let l = copy_string(&ls[i]);
            let ghost before = cur.deep_view();
            let ghost l_v = l@;
            cur.push(l);
            assert(cur.deep_view() =~= before.push(l_v));
        }
        i = i + 1;
    }
    assert(lv.take(ls@.len() as int) =~= lv);
    flush(&mut cur, &mut paras);
    paras
}

fn paragraph_blocks(paras: Vec<String>) -> (r: Vec<Block>)
    ensures
        blocks_view(r@) == para_blocks(paras.deep_view()),
{
    let ghost pv = paras.deep_view();
    let mut out: Vec<Block> = Vec::new();
    let mut i: usize = 0;
    while i < paras.len()
        invariant
            i <= paras@.len(),
            pv == paras.deep_view(),
            pv.len() == paras@.len(),
            blocks_view(out@) == para_blocks(pv.take(i as int)),
        decreases paras@.len() - i,
    {
        let mut content: Vec<Inline> = Vec::new();
        content.push(Inline::Text(copy_string(&paras[i])));
        let b = Block::Paragraph(content);
        let ghost before = blocks_view(out@);
        let ghost bv = b@;
        assert(inlines_view(content@) =~= seq![InlineV::Text(pv[i as int])]);
        out.push(b);
        assert(blocks_view(out@) =~= before.push(bv));
        assert(para_blocks(pv.take(i + 1)) =~= para_blocks(pv.take(i as int)).push(para_block(pv[i as int])));
        i = i + 1;
    }
    assert(pv.take(paras@.len() as int) =~= pv);
    out
}

/// [`text_blocks_spec`] computed.
pub fn text_to_blocks(text: &str) -> (r: Vec<Block>)
    ensures
        blocks_view(r@) == text_blocks_spec(text@),
{
    let pages = split_on_char(text, '\u{0C}');
    let ghost pv = pages.deep_view();
    let mut blocks: Vec<Block> = Vec::new();
    let mut i: usize = 0;
    assert(blocks_view(blocks@) =~= pages_blocks(pv.take(0)));
    while i < pages.len()
        invariant
            i <= pages@.len(),
            pv == pages.deep_view(),
            pv == split_on(text@, '\u{0C}'),
            pv.len() == pages@.len(),
            blocks_view(blocks@) == pages_blocks(pv.take(i as int)),
        decreases pages@.len() - i,
    {
        assert(pv.take(i + 1).drop_last() =~= pv.take(i as int));
        assert(pv.take(i + 1).last() == pv[i as int]);
        assert(pv[i as int] == pages@[i as int]@);
        let ghost start = blocks_view(blocks@);
        if i > 0 {
            blocks.push(Block::PageBreak);
            assert(blocks_view(blocks@) =~= start.push(BlockV::PageBreak));
        }
        let ghost mid = blocks_view(blocks@);
        let mut more = paragraph_blocks(split_paragraphs(pages[i].as_str()));
        let ghost mv = blocks_view(more@);
        blocks.append(&mut more);
        assert(blocks_view(blocks@) =~= mid + mv);
        i = i + 1;
    }
    assert(pv.take(pages@.len() as int) =~= pv);
    blocks
}

// ── what the text path gives ────────────────────────────────────

/// A block of the text path: a page break, or a paragraph of one
/// non-empty text run.
pub open spec fn text_block_ok(b: BlockV) -> bool {
    match b {
        BlockV::PageBreak => true,
        BlockV::Paragraph(s) => s.len() == 1 && (s[0] matches InlineV::Text(t) && t.len() > 0),
        _ => false,
    }
}

/// The number of page breaks among the blocks.
pub open spec fn page_breaks(bs: Seq<BlockV>) -> nat
    decreases bs.len(),
{
    if bs.len() == 0 {
        0
    } else {
        page_breaks(bs.drop_last()) + if bs.last() is PageBreak {
            1nat
        } else {
            0nat
        }
    }
}

proof fn lemma_page_breaks_concat(a: Seq<BlockV>, b: Seq<BlockV>)
    ensures
        page_breaks(a + b) == page_breaks(a) + page_breaks(b),
    decreases b.len(),
{
    if b.len() > 0 {
        lemma_page_breaks_concat(a, b.drop_last());
        assert((a + b).drop_last() =~= a + b.drop_last());
    } else {
        assert(a + b =~= a);
    }
}

proof fn lemma_paragraph_blocks(ps: Seq<Seq<char>>)
    requires
        forall|i: int| 0 <= i < ps.len() ==> ps[i].len() > 0,
    ensures
        page_breaks(para_blocks(ps)) == 0,
        forall|i: int| 0 <= i < ps.len() ==> text_block_ok(#[trigger] para_blocks(ps)[i]),
    decreases ps.len(),
{
    if ps.len() > 0 {
        lemma_paragraph_blocks(ps.drop_last());
        assert(para_blocks(ps).drop_last() =~= para_blocks(ps.drop_last()));
    }
}

proof fn lemma_para_state_nonempty(ls: Seq<Seq<char>>)
    ensures
        forall|i: int| 0 <= i < para_state(ls).0.len() ==> (#[trigger] para_state(ls).0[i]).len() > 0,
    decreases ls.len(),
{
    if ls.len() > 0 {
        lemma_para_state_nonempty(ls.drop_last());
        let st = para_state(ls.drop_last());
        if is_blank(ls.last()) {
            assert forall|i: int| 0 <= i < para_state(ls).0.len() implies (#[trigger] para_state(ls).0[i]).len() > 0 by {
                if i >= st.0.len() {
                    assert(flush_spec(st.1)[i - st.0.len()].len() > 0);
                }
            }
        }
    }
}

proof fn lemma_split_on_nonempty(s: Seq<char>, c: char)
    ensures
        split_on(s, c).len() >= 1,
    decreases s.len(),
{
    if s.len() > 0 {
        lemma_split_on_nonempty(s.drop_last(), c);
    }
}

proof fn lemma_pages_blocks(pages: Seq<Seq<char>>)
    ensures
        pages.len() > 0 ==> page_breaks(pages_blocks(pages)) == pages.len() - 1,
        forall|i: int| 0 <= i < pages_blocks(pages).len() ==> text_block_ok(#[trigger] pages_blocks(pages)[i]),
    decreases pages.len(),
{
    if pages.len() > 0 {
        lemma_pages_blocks(pages.drop_last());
        let prev = pages_blocks(pages.drop_last());
        let head = if pages.len() > 1 {
            prev.push(BlockV::PageBreak)
        } else {
            prev
        };
        let ps = split_paragraphs_spec(pages.last());
        lemma_para_state_nonempty(lines(pages.last()));
        let st = para_state(lines(pages.last()));
        assert forall|i: int| 0 <= i < ps.len() implies ps[i].len() > 0 by {
            if i >= st.0.len() {
                assert(flush_spec(st.1)[i - st.0.len()].len() > 0);
            } else {
                assert(st.0[i].len() > 0);
            }
        }
        lemma_paragraph_blocks(ps);
        lemma_page_breaks_concat(head, page_blocks(pages.last()));
        if pages.len() > 1 {
            assert(head.drop_last() =~= prev);
        }
        assert forall|i: int| 0 <= i < pages_blocks(pages).len() implies text_block_ok(#[trigger] pages_blocks(pages)[i]) by {
            if i < head.len() {
                if i < prev.len() {
                    assert(pages_blocks(pages)[i] == prev[i]);
                }
            } else {
                assert(pages_blocks(pages)[i] == page_blocks(pages.last())[i - head.len()]);
            }
        }
    }
}

/// The text path makes only page breaks and paragraphs of one non-empty text
/// run, with exactly one page break between two consecutive pages: as many
/// page breaks as the text has form feeds.
pub proof fn law_pdf_text_blocks(text: Seq<char>)
    ensures
        forall|i: int| 0 <= i < text_blocks_spec(text).len() ==> text_block_ok(#[trigger] text_blocks_spec(text)[i]),
        page_breaks(text_blocks_spec(text)) + 1 == split_on(text, '\u{0C}').len(),
{
    lemma_split_on_nonempty(text, '\u{0C}');
    lemma_pages_blocks(split_on(text, '\u{0C}'));
}

// ── the parser ──────────────────────────────────────────────────

/// The metadata of a PDF: page count, title and author when it loads.
pub open spec fn pdf_metadata_spec(input: Seq<u8>, filename: Seq<char>) -> MetadataV {
    MetadataV {
        title: if pdf_loads(input) { info_text_spec(pdf_info(input, "Title"@)) } else { None },
        author: if pdf_loads(input) { info_text_spec(pdf_info(input, "Author"@)) } else { None },
        created_at: None,
        source_format: SourceFormat::Pdf,
        original_filename: filename,
        page_count: if pdf_loads(input) { Some(pdf_pages(input).len() as usize) } else { None },
        language: None,
    }
}

/// The embedded images of the given pages, after the body, when the
/// document loads.
pub open spec fn pdf_image_blocks(input: Seq<u8>, pages: Seq<Option<Seq<PdfImageV>>>) -> Seq<BlockV> {
    if pdf_loads(input) {
        pages_image_blocks(pages)
    } else {
        Seq::empty()
    }
}

/// What parsing a PDF gives with the parts the caller gathered: the layout
/// blocks when the document loads and there are any, else the extracted
/// text, each followed by the images of the pages.  Text extraction that
/// failed or panicked is a container error; a text layer that was needed and
/// not extracted is unsupported.
pub open spec fn pdf_parse_spec(input: Seq<u8>, filename: Seq<char>, parts: PdfPartsV) -> Result<DocumentV, ParseErrorV> {
    let metadata = pdf_metadata_spec(input, filename);
    let images = pdf_image_blocks(input, parts.pages);
    if pdf_loads(input) && parts.layout.len() > 0 {
        Ok(DocumentV { metadata, blocks: parts.layout + images })
    } else {
        match parts.text {
            TextLayerV::Extracted(t) => Ok(DocumentV { metadata, blocks: text_blocks_spec(t) + images }),
            TextLayerV::Failed(m) => Err(container_error("pdf"@, "text extraction failed: "@ + m)),
            TextLayerV::Panicked => Err(container_error("pdf"@, "pdf-extract panicked on malformed PDF"@)),
            TextLayerV::NotExtracted => Err(unsupported_error("pdf"@, "the text layer was not extracted"@)),
        }
    }
}

/// Parses a PDF with the parts the caller gathered ([`pdf_parse_spec`]):
/// title, author and page count come from the loaded document.
pub fn parse_pdf(input: &[u8], filename: &str, parts: PdfParts) -> (r: Result<ir::Document, ParseError>)
    ensures
        parse_result_view(r) == pdf_parse_spec(input@, filename@, parts@),
{
    let PdfParts { layout, page_images, text } = parts;
    let mut metadata = DocumentMetadata::new(SourceFormat::Pdf, filename);
    let mut is_loaded = false;
    match pdf_open(input) {
        Some(d) => {
            let pages = page_ids(&d);
            metadata.page_count = Some(pages.len());
            metadata.title = info_text(&d, "Title");
            metadata.author = info_text(&d, "Author");
            is_loaded = true;
        },
        None => {},
    }
    assert(metadata@ == pdf_metadata_spec(input@, filename@));
    let mut images = if is_loaded {
        page_image_blocks(&page_images)
    } else {
        Vec::new()
    };
    assert(blocks_view(images@) =~= pdf_image_blocks(input@, page_images_view(page_images@)));
    if is_loaded && layout.len() > 0 {
        let mut blocks = layout;
        let ghost lv = blocks_view(blocks@);
        let ghost iv = blocks_view(images@);
        blocks.append(&mut images);
        assert(blocks_view(blocks@) =~= lv + iv);
        return Ok(ir::Document { metadata, blocks });
    }
    match text {
        TextLayer::Extracted(t) => {
            let mut blocks = text_to_blocks(t.as_str());
            let ghost tv = blocks_view(blocks@);
            let ghost iv = blocks_view(images@);
            blocks.append(&mut images);
            assert(blocks_view(blocks@) =~= tv + iv);
            Ok(ir::Document { metadata, blocks })
        },
        TextLayer::Failed(m) => Err(ParseError::container("pdf", concat("text extraction failed: ", m.as_str()))),
        TextLayer::Panicked => Err(ParseError::container("pdf", "pdf-extract panicked on malformed PDF".to_string())),
        TextLayer::NotExtracted => Err(ParseError::unsupported("pdf", "the text layer was not extracted".to_string())),
    }
}

/// Once the text layer was extracted, or its extraction's failure or panic
/// recorded, a PDF parse gives a PDF document named after the file, or else
/// a container error of the PDF format: damaged bytes end in an error.
pub proof fn law_pdf_parse_outcome(input: Seq<u8>, filename: Seq<char>, parts: PdfPartsV)
    requires
        !(parts.text is NotExtracted),
    ensures
        match pdf_parse_spec(input, filename, parts) {
            Ok(d) => d.metadata.source_format == SourceFormat::Pdf && d.metadata.original_filename == filename,
            Err(e) => e.kind == ParseErrorKind::Container && e.format == "pdf"@,
        },
{
}

/// PDF documents.  A parse through this trait has none of the parts that a
/// caller gathers ([`PdfParts`]), so it ends in an unsupported error (the
/// text layer was not extracted); [`parse_pdf`] takes them, and so do the
/// registry's `*_with_pdf_parts` entry points.
pub struct PdfParser;

impl FormatParser for PdfParser {
    open spec fn spec_name(&self) -> Seq<char> {
        "pdf"@
    }

    open spec fn spec_extensions(&self) -> Seq<Seq<char>> {
        seq!["pdf"@]
    }

    open spec fn spec_accepts(&self, header: Seq<u8>) -> bool {
        pdf_magic(header)
    }

    open spec fn spec_parse(&self, input: Seq<u8>, filename: Seq<char>) -> Result<DocumentV, ParseErrorV> {
        pdf_parse_spec(input, filename, no_parts())
    }

    fn supported_extensions(&self) -> (r: &[&'static str]) {
        let r: &[&'static str] = &["pdf"];
        assert(r@.map_values(|s: &str| s@) =~= seq!["pdf"@]);
        r
    }

    fn can_parse_bytes(&self, header: &[u8]) -> (r: bool) {
        is_pdf_magic(header)
    }

    fn name(&self) -> (r: &'static str) {
        "pdf"
    }

    fn parse(&self, input: &[u8], filename: &str) -> (r: Result<ir::Document, ParseError>) {
        parse_pdf(input, filename, PdfParts::none())
    }
}

/// A PDF starts with `%PDF-`.
pub open spec fn pdf_magic(header: Seq<u8>) -> bool {
    header.len() >= 5 && header[0] == 0x25u8 && header[1] == 0x50u8 && header[2] == 0x44u8
        && header[3] == 0x46u8 && header[4] == 0x2Du8
}

/// [`pdf_magic`] computed.
pub fn is_pdf_magic(header: &[u8]) -> (r: bool)
    ensures
        r == pdf_magic(header@),
{
    header.len() >= 5 && header[0] == 0x25 && header[1] == 0x50 && header[2] == 0x44 && header[3] == 0x46
        && header[4] == 0x2D
}

} // verus!
