//! HWPX (Hancom OWPML, ZIP + XML): `Contents/header.xml` gives style id →
//! heading level by the style's English name, `Contents/section*.xml` the
//! paragraphs and tables, `Contents/content.hpf` the title and the manifest
//! of embedded images.  Elements are compared by their local name.

use vstd::prelude::*;
use crate::error::{container_error, markup_error, ParseError, ParseErrorV};
use crate::ir::{
    blocks_view, Block, BlockV, Document, DocumentMetadata, DocumentV, ImageData, ImageDataV,
    Inline, InlineV, MetadataV, SourceFormat,
};
use crate::media::{ascii_lower, ascii_lowercase, base64_encode, base64_spec, mime_from_path, mime_spec, stem_of, stem_spec};
use crate::parsers::common::{
    append_cell, append_rows_text, clear_cell, empty_table_ctx, end_cell, end_row, find_style,
    heading_number, heading_number_of, into_table, into_table_spec, new_table_ctx, para_space,
    rows_text, style_lookup, styles_view, tables_append, tables_clear_cell, tables_end_cell,
    tables_end_row, tables_para_space, tables_view, TableCtx, TableCtxV,
};
use crate::parsers::natural::natural_sort;
use crate::parsers::ooxml::{
    concat3, entry_data, find_image, get_str_spec, image_lookup, image_ref_view, image_refs_view,
    matching_names, package_spec, suffix_index, ImageRef, ImageRefV, OoxmlPackage,
};
use crate::parsers::xml::{
    attr_lookup, attr_lookup_local, attr_val, attr_val_local, attrs_view, event_view, events_view,
    local_name, local_name_of, read_all, xml_read, XmlAttr, XmlAttrV, XmlEvent, XmlEventV,
};
use crate::registry::{parse_result_view, FormatParser};
use crate::strs::{trim, trim_string};
use crate::text::{chars_of, collapse, collapse_ws, concat, has_prefix, starts_with_str, str_eq};

verus! {

// ── header.xml: style id → heading level ───────────────────────

/// The level an English style name stands for: `Title` 1, `Subtitle` 2,
/// `Outline N` / `Heading N` N kept within 1..=6 (1 when N does not parse).
pub open spec fn hwpx_heading_level(eng_name: Seq<char>) -> Option<u8> {
    let s = ascii_lower(trim(eng_name));
    if s == "title"@ {
        Some(1u8)
    } else if s == "subtitle"@ {
        Some(2u8)
    } else if has_prefix(s, "outline"@) {
        Some(heading_number(trim(s.skip(7))))
    } else if has_prefix(s, "heading"@) {
        Some(heading_number(trim(s.skip(7))))
    } else {
        None
    }
}

/// [`hwpx_heading_level`] computed.
pub fn heading_level(eng_name: &str) -> (r: Option<u8>)
    ensures
        r == hwpx_heading_level(eng_name@),
{
    let t = trim_string(eng_name);
    let s = ascii_lowercase(chars_of(t.as_str()).as_slice());
    proof {
        reveal_strlit("outline");
        reveal_strlit("heading");
    }
    if str_eq(s.as_str(), "title") {
        Some(1)
    } else if str_eq(s.as_str(), "subtitle") {
        Some(2)
    } else if starts_with_str(s.as_str(), "outline") || starts_with_str(s.as_str(), "heading") {
        let cs = chars_of(s.as_str());
        let rest = crate::text::sub_chars(&cs, 7, cs.len());
        assert(rest@ =~= s@.skip(7));
        let rs = crate::text::string_of(rest.as_slice());
        let n = trim_string(rs.as_str());
        Some(heading_number_of(n.as_str()))
    } else {
        None
    }
}

/// A `<style>` element: its `id` gets the level of its `engName`.
pub open spec fn header_step(levels: Seq<(Seq<char>, u8)>, ev: XmlEventV) -> Seq<(Seq<char>, u8)> {
    match ev {
        XmlEventV::Start { name, attrs } => header_style(levels, name, attrs),
        XmlEventV::Empty { name, attrs } => header_style(levels, name, attrs),
        _ => levels,
    }
}

pub open spec fn header_style(levels: Seq<(Seq<char>, u8)>, name: Seq<char>, attrs: Seq<XmlAttrV>) -> Seq<(Seq<char>, u8)> {
    if local_name(name) == "style"@ {
        let eng = match attr_lookup(attrs, "engName"@) {
            Some(e) => e,
            None => Seq::empty(),
        };
        match (attr_lookup(attrs, "id"@), hwpx_heading_level(eng)) {
            (Some(id), Some(l)) => levels.push((id, l)),
            _ => levels,
        }
    } else {
        levels
    }
}

pub open spec fn header_fold(evs: Seq<XmlEventV>) -> Seq<(Seq<char>, u8)>
    decreases evs.len(),
{
    if evs.len() == 0 {
        Seq::empty()
    } else {
        header_step(header_fold(evs.drop_last()), evs.last())
    }
}

pub open spec fn hwpx_styles_spec(es: Seq<(Seq<char>, Seq<u8>)>) -> Result<Seq<(Seq<char>, u8)>, ParseErrorV> {
    match get_str_spec(es, "Contents/header.xml"@, "hwpx"@) {
        Err(e) => Err(e),
        Ok(None) => Ok(Seq::empty()),
        Ok(Some(x)) => match xml_read(x).1 {
            Some(m) => Err(markup_error("hwpx"@, "header.xml: "@ + m)),
            None => Ok(header_fold(xml_read(x).0)),
        },
    }
}

fn header_style_exec(levels: &mut Vec<(String, u8)>, name: &str, attrs: &Vec<XmlAttr>)
    ensures
        styles_view(final(levels)@) == header_style(styles_view(old(levels)@), name@, attrs_view(attrs@)),
{
    let ln = local_name_of(name);
    if str_eq(ln.as_str(), "style") {
        let eng = match attr_val(attrs, "engName") {
            Some(e) => e,
            None => String::new(),
        };
        match (attr_val(attrs, "id"), heading_level(eng.as_str())) {
            (Some(id), Some(l)) => {
                let ghost before = styles_view(levels@);
                let ghost idv = id@;
                levels.push((id, l));
                assert(styles_view(levels@) =~= before.push((idv, l)));
            },
            _ => {},
        }
    }
}

fn parse_header_styles(pkg: &OoxmlPackage) -> (r: Result<Vec<(String, u8)>, ParseError>)
    ensures
        match r {
            Ok(v) => hwpx_styles_spec(pkg@) == Ok::<Seq<(Seq<char>, u8)>, ParseErrorV>(styles_view(v@)),
            Err(e) => hwpx_styles_spec(pkg@) == Err::<Seq<(Seq<char>, u8)>, ParseErrorV>(e@),
        },
{
    let xml = match pkg.get_str("Contents/header.xml", "hwpx") {
        Err(e) => return Err(e),
        Ok(None) => {
            let v: Vec<(String, u8)> = Vec::new();
            assert(styles_view(v@) =~= Seq::<(Seq<char>, u8)>::empty());
            return Ok(v);
        },
        Ok(Some(x)) => x,
    };
    let (evs, err) = read_all(xml.as_str());
    match err {
        Some(m) => return Err(ParseError::markup("hwpx", concat("header.xml: ", m.as_str()))),
        None => {},
    }
    let ghost ev = events_view(evs@);
    let mut levels: Vec<(String, u8)> = Vec::new();
    assert(styles_view(levels@) =~= Seq::<(Seq<char>, u8)>::empty());
    assert(ev.take(0) =~= Seq::<XmlEventV>::empty());
    let mut i: usize = 0;
    while i < evs.len()
        invariant
            i <= evs@.len(),
            ev == events_view(evs@),
            styles_view(levels@) == header_fold(ev.take(i as int)),
        decreases evs@.len() - i,
    {
        assert(ev.take(i + 1).drop_last() =~= ev.take(i as int));
        assert(ev.take(i + 1).last() == event_view(evs@[i as int]));
        match &evs[i] {
            XmlEvent::Start { name, attrs } | XmlEvent::Empty { name, attrs } => {
                header_style_exec(&mut levels, name.as_str(), attrs);
            },
            _ => {},
        }
        i = i + 1;
    }
    assert(ev.take(evs@.len() as int) =~= ev);
    Ok(levels)
}

// ── content.hpf: title ──────────────────────────────────────────

/// The scan for the title: still looking (and whether inside `<title>`), or done.
pub enum TitleScanV {
    Looking(bool),
    Found(Option<Seq<char>>),
}

pub open spec fn title_step(st: TitleScanV, ev: XmlEventV) -> TitleScanV {
    match st {
        TitleScanV::Found(x) => TitleScanV::Found(x),
        TitleScanV::Looking(in_title) => match ev {
            XmlEventV::Start { name, .. } => if local_name(name) == "title"@ {
                TitleScanV::Looking(true)
            } else {
                st
            },
            XmlEventV::Text { text } => if in_title {
                match text {
                    Err(_) => TitleScanV::Found(None),
                    Ok(s) => {
                        let v = trim(s);
                        TitleScanV::Found(if v.len() == 0 { None } else { Some(v) })
                    },
                }
            } else {
                st
            },
            XmlEventV::End { .. } => TitleScanV::Looking(false),
            _ => st,
        },
    }
}

pub open spec fn title_fold(evs: Seq<XmlEventV>) -> TitleScanV
    decreases evs.len(),
{
    if evs.len() == 0 {
        TitleScanV::Looking(false)
    } else {
        title_step(title_fold(evs.drop_last()), evs.last())
    }
}

/// The trimmed text of the first `<title>` of `content.hpf`; nothing when it
/// is absent, unreadable or blank.
pub open spec fn hwpx_title_spec(es: Seq<(Seq<char>, Seq<u8>)>) -> Option<Seq<char>> {
    match get_str_spec(es, "Contents/content.hpf"@, "hwpx"@) {
        Ok(Some(x)) => match title_fold(xml_read(x).0) {
            TitleScanV::Found(t) => t,
            TitleScanV::Looking(_) => None,
        },
        _ => None,
    }
}

proof fn lemma_title_found_stays(evs: Seq<XmlEventV>, k: int)
    requires
        0 <= k <= evs.len(),
        title_fold(evs.take(k)) is Found,
    ensures
        title_fold(evs) == title_fold(evs.take(k)),
    decreases evs.len() - k,
{
    if k < evs.len() {
        assert(evs.take(k + 1).drop_last() =~= evs.take(k));
        lemma_title_found_stays(evs, k + 1);
    } else {
        assert(evs.take(k) =~= evs);
    }
}

fn parse_title(pkg: &OoxmlPackage) -> (r: Option<String>)
    ensures
        crate::ir::opt_str_view(r) == hwpx_title_spec(pkg@),
{
    let xml = match pkg.get_str("Contents/content.hpf", "hwpx") {
        Ok(Some(x)) => x,
        _ => return None,
    };
    let (evs, _err) = read_all(xml.as_str());
    let ghost ev = events_view(evs@);
    let mut in_title = false;
    let mut i: usize = 0;
    assert(ev.take(0) =~= Seq::<XmlEventV>::empty());
    while i < evs.len()
        invariant
            i <= evs@.len(),
            ev == events_view(evs@),
            ev == xml_read(xml@).0,
            get_str_spec(pkg@, "Contents/content.hpf"@, "hwpx"@) == Ok::<Option<Seq<char>>, ParseErrorV>(Some(xml@)),
            title_fold(ev.take(i as int)) == TitleScanV::Looking(in_title),
        decreases evs@.len() - i,
    {
        assert(ev.take(i + 1).drop_last() =~= ev.take(i as int));
        assert(ev.take(i + 1).last() == event_view(evs@[i as int]));
        match &evs[i] {
            XmlEvent::Start { name, .. } => {
                let ln = local_name_of(name.as_str());
                if str_eq(ln.as_str(), "title") {
                    in_title = true;
                }
            },
            XmlEvent::Text { text } => {
                if in_title {
                    proof {
                        lemma_title_found_stays(ev, i + 1);
                    }
                    match text {
                        Err(_) => return None,
                        Ok(s) => {
                            let v = trim_string(s.as_str());
                            return if v.as_str().is_empty() { None } else { Some(v) };
                        },
                    }
                }
            },
            XmlEvent::End { .. } => {
                in_title = false;
            },
            _ => {},
        }
        i = i + 1;
    }
    assert(ev.take(evs@.len() as int) =~= ev);
    None
}

// ── content.hpf: embedded images ────────────────────────────────

/// The bytes of a manifest item: the entry at `href`, else the first entry whose path ends with it.
pub open spec fn item_bytes(es: Seq<(Seq<char>, Seq<u8>)>, href: Seq<char>) -> Option<Seq<u8>> {
    match entry_data(es, href) {
        Some(b) => Some(b),
        None => if suffix_index(es, href) >= 0 { Some(es[suffix_index(es, href)].1) } else { None },
    }
}

/// An `<item id href media-type>` of the manifest that is an image (by its
/// media type or by the extension of `href`) and whose bytes are in the package.
pub open spec fn manifest_item(es: Seq<(Seq<char>, Seq<u8>)>, acc: Seq<ImageRefV>, attrs: Seq<XmlAttrV>) -> Seq<ImageRefV> {
    let media = match attr_lookup(attrs, "media-type"@) {
        Some(m) => m,
        None => Seq::empty(),
    };
    match (attr_lookup(attrs, "id"@), attr_lookup(attrs, "href"@)) {
        (Some(id), Some(href)) => {
            let path_mime = mime_spec(href);
            if !has_prefix(media, "image/"@) && !has_prefix(path_mime, "image/"@) {
                acc
            } else {
                match item_bytes(es, href) {
                    Some(b) => {
                        let mime = if has_prefix(media, "image/"@) { media } else { path_mime };
                        acc.push(ImageRefV { id, alt: stem_spec(href), data: ImageDataV::Base64 { mime, data: base64_spec(b) } })
                    },
                    None => acc,
                }
            }
        },
        _ => acc,
    }
}

pub open spec fn manifest_step(es: Seq<(Seq<char>, Seq<u8>)>, acc: Seq<ImageRefV>, ev: XmlEventV) -> Seq<ImageRefV> {
    match ev {
        XmlEventV::Start { name, attrs } => if local_name(name) == "item"@ { manifest_item(es, acc, attrs) } else { acc },
        XmlEventV::Empty { name, attrs } => if local_name(name) == "item"@ { manifest_item(es, acc, attrs) } else { acc },
        _ => acc,
    }
}

pub open spec fn manifest_fold(es: Seq<(Seq<char>, Seq<u8>)>, evs: Seq<XmlEventV>) -> Seq<ImageRefV>
    decreases evs.len(),
{
    if evs.len() == 0 {
        Seq::empty()
    } else {
        manifest_step(es, manifest_fold(es, evs.drop_last()), evs.last())
    }
}

pub open spec fn hwpx_images_spec(es: Seq<(Seq<char>, Seq<u8>)>) -> Result<Seq<ImageRefV>, ParseErrorV> {
    match get_str_spec(es, "Contents/content.hpf"@, "hwpx"@) {
        Err(e) => Err(e),
        Ok(None) => Ok(Seq::empty()),
        Ok(Some(x)) => match xml_read(x).1 {
            Some(m) => Err(markup_error("hwpx"@, "content.hpf: "@ + m)),
            None => Ok(manifest_fold(es, xml_read(x).0)),
        },
    }
}

fn manifest_item_exec(pkg: &OoxmlPackage, acc: &mut Vec<ImageRef>, attrs: &Vec<XmlAttr>)
    ensures
        image_refs_view(final(acc)@) == manifest_item(pkg@, image_refs_view(old(acc)@), attrs_view(attrs@)),
{
    let media = match attr_val(attrs, "media-type") {
        Some(m) => m,
        None => String::new(),
    };
    match (attr_val(attrs, "id"), attr_val(attrs, "href")) {
        (Some(id), Some(href)) => {
            let path_mime = mime_from_path(href.as_str());
            let media_is_image = starts_with_str(media.as_str(), "image/");
            if !media_is_image && !starts_with_str(path_mime, "image/") {
                return;
            }
            let bytes = match pkg.get(href.as_str()) {
                Some(b) => Some(b),
                None => pkg.get_by_suffix(href.as_str()),
            };
            match bytes {
                Some(b) => {
                    let mime = if media_is_image { media } else { path_mime.to_owned() };
                    let r = ImageRef {
                        id,
                        alt: stem_of(href.as_str()),
                        data: ImageData::Base64 { mime, data: base64_encode(b) },
                    };
                    let ghost before = image_refs_view(acc@);
                    acc.push(r);
                    assert(image_refs_view(acc@) =~= before.push(image_ref_view(r)));
                },
                None => {},
            }
        },
        _ => {},
    }
}

fn build_images(pkg: &OoxmlPackage) -> (r: Result<Vec<ImageRef>, ParseError>)
    ensures
        match r {
            Ok(v) => hwpx_images_spec(pkg@) == Ok::<Seq<ImageRefV>, ParseErrorV>(image_refs_view(v@)),
            Err(e) => hwpx_images_spec(pkg@) == Err::<Seq<ImageRefV>, ParseErrorV>(e@),
        },
{
    let xml = match pkg.get_str("Contents/content.hpf", "hwpx") {
        Err(e) => return Err(e),
        Ok(None) => {
            let v: Vec<ImageRef> = Vec::new();
            assert(image_refs_view(v@) =~= Seq::<ImageRefV>::empty());
            return Ok(v);
        },
        Ok(Some(x)) => x,
    };
    let (evs, err) = read_all(xml.as_str());
    match err {
        Some(m) => return Err(ParseError::markup("hwpx", concat("content.hpf: ", m.as_str()))),
        None => {},
    }
    let ghost ev = events_view(evs@);
    let mut acc: Vec<ImageRef> = Vec::new();
    assert(image_refs_view(acc@) =~= Seq::<ImageRefV>::empty());
    assert(ev.take(0) =~= Seq::<XmlEventV>::empty());
    let mut i: usize = 0;
    while i < evs.len()
        invariant
            i <= evs@.len(),
            ev == events_view(evs@),
            image_refs_view(acc@) == manifest_fold(pkg@, ev.take(i as int)),
        decreases evs@.len() - i,
    {
        assert(ev.take(i + 1).drop_last() =~= ev.take(i as int));
        assert(ev.take(i + 1).last() == event_view(evs@[i as int]));
        match &evs[i] {
            XmlEvent::Start { name, attrs } | XmlEvent::Empty { name, attrs } => {
                let ln = local_name_of(name.as_str());
                if str_eq(ln.as_str(), "item") {
                    manifest_item_exec(pkg, &mut acc, attrs);
                }
            },
            _ => {},
        }
        i = i + 1;
    }
    assert(ev.take(evs@.len() as int) =~= ev);
    Ok(acc)
}

// ── section*.xml ────────────────────────────────────────────────

#[verifier::ext_equal]
pub struct SectionStateV {
    pub blocks: Seq<BlockV>,
    pub para_text: Seq<char>,
    pub para_style: Option<Seq<char>>,
    pub in_text: bool,
    pub tables: Seq<TableCtxV>,
}

/// An element that refers to an embedded image by `binaryItemIDRef`, outside tables.
pub open spec fn section_image(st: SectionStateV, attrs: Seq<XmlAttrV>, images: Seq<ImageRefV>) -> SectionStateV {
    if st.tables.len() > 0 {
        st
    } else {
        match attr_lookup_local(attrs, "binaryItemIDRef"@) {
            Some(rid) => match image_lookup(images, rid) {
                Some(r) => SectionStateV { blocks: st.blocks.push(BlockV::Image { alt: r.alt, data: r.data }), ..st },
                None => st,
            },
            None => st,
        }
    }
}

pub open spec fn section_open(st: SectionStateV, name: Seq<char>, attrs: Seq<XmlAttrV>, images: Seq<ImageRefV>) -> SectionStateV {
    let s1 = section_image(st, attrs, images);
    let ln = local_name(name);
    if ln == "p"@ {
        SectionStateV { para_text: Seq::empty(), para_style: attr_lookup(attrs, "styleIDRef"@), ..s1 }
    } else if ln == "t"@ {
        SectionStateV { in_text: true, ..s1 }
    } else if ln == "tbl"@ {
        SectionStateV { tables: s1.tables.push(empty_table_ctx()), ..s1 }
    } else if ln == "tc"@ {
        SectionStateV { tables: tables_clear_cell(s1.tables), ..s1 }
    } else {
        s1
    }
}

/// A paragraph ends outside tables: a heading when its style has a level, else a paragraph.
pub open spec fn section_paragraph(st: SectionStateV, styles: Seq<(Seq<char>, u8)>) -> SectionStateV {
    let text = collapse(st.para_text);
    if text.len() == 0 {
        st
    } else {
        let level = match st.para_style {
            Some(s) => style_lookup(styles, s),
            None => None,
        };
        match level {
            Some(l) => SectionStateV { blocks: st.blocks.push(BlockV::Heading { level: l, text }), ..st },
            None => SectionStateV { blocks: st.blocks.push(BlockV::Paragraph(seq![InlineV::Text(text)])), ..st },
        }
    }
}

pub open spec fn section_end_table(st: SectionStateV) -> SectionStateV {
    if st.tables.len() == 0 {
        st
    } else {
        let table = into_table_spec(st.tables.last());
        let rest = st.tables.drop_last();
        if rest.len() > 0 {
            SectionStateV { tables: tables_append(rest, rows_text(table.rows)), ..st }
        } else {
            SectionStateV { tables: rest, blocks: st.blocks.push(BlockV::Table(table)), ..st }
        }
    }
}

pub open spec fn section_close(st: SectionStateV, name: Seq<char>, styles: Seq<(Seq<char>, u8)>) -> SectionStateV {
    let ln = local_name(name);
    if ln == "t"@ {
        SectionStateV { in_text: false, ..st }
    } else if ln == "p"@ {
        if st.tables.len() > 0 {
            SectionStateV { tables: tables_para_space(st.tables), ..st }
        } else {
            section_paragraph(st, styles)
        }
    } else if ln == "tc"@ {
        SectionStateV { tables: tables_end_cell(st.tables), ..st }
    } else if ln == "tr"@ {
        SectionStateV { tables: tables_end_row(st.tables), ..st }
    } else if ln == "tbl"@ {
        section_end_table(st)
    } else {
        st
    }
}

pub open spec fn section_step(st: SectionStateV, ev: XmlEventV, styles: Seq<(Seq<char>, u8)>, images: Seq<ImageRefV>) -> Result<SectionStateV, Seq<char>> {
    match ev {
        XmlEventV::Start { name, attrs } => Ok(section_open(st, name, attrs, images)),
        XmlEventV::Empty { name, attrs } => Ok(section_open(st, name, attrs, images)),
        XmlEventV::Text { text } => if st.in_text {
            match text {
                Err(m) => Err("hp:t: "@ + m),
                Ok(s) => if st.tables.len() > 0 {
                    Ok(SectionStateV { tables: tables_append(st.tables, s), ..st })
                } else {
                    Ok(SectionStateV { para_text: st.para_text + s, ..st })
                },
            }
        } else {
            Ok(st)
        },
        XmlEventV::End { name } => Ok(section_close(st, name, styles)),
        XmlEventV::Other => Ok(st),
    }
}

pub open spec fn section_fold(evs: Seq<XmlEventV>, blocks: Seq<BlockV>, styles: Seq<(Seq<char>, u8)>, images: Seq<ImageRefV>) -> Result<SectionStateV, Seq<char>>
    decreases evs.len(),
{
    if evs.len() == 0 {
        Ok(SectionStateV { blocks, para_text: Seq::empty(), para_style: None, in_text: false, tables: Seq::empty() })
    } else {
        match section_fold(evs.drop_last(), blocks, styles, images) {
            Err(m) => Err(m),
            Ok(st) => section_step(st, evs.last(), styles, images),
        }
    }
}

/// The blocks after a section's own were added, or the detail of the markup error.
pub open spec fn section_spec(xml: Seq<char>, blocks: Seq<BlockV>, styles: Seq<(Seq<char>, u8)>, images: Seq<ImageRefV>) -> Result<Seq<BlockV>, Seq<char>> {
    match section_fold(xml_read(xml).0, blocks, styles, images) {
        Err(m) => Err(m),
        Ok(st) => match xml_read(xml).1 {
            Some(m) => Err("section: "@ + m),
            None => Ok(st.blocks),
        },
    }
}

struct SectionState {
    blocks: Vec<Block>,
    para_text: String,
    para_style: Option<String>,
    in_text: bool,
    tables: Vec<TableCtx>,
}

spec fn secv(s: SectionState) -> SectionStateV {
    SectionStateV {
        blocks: blocks_view(s.blocks@),
        para_text: s.para_text@,
        para_style: crate::ir::opt_str_view(s.para_style),
        in_text: s.in_text,
        tables: tables_view(s.tables@),
    }
}

fn push_section_block(st: &mut SectionState, b: Block)
    ensures
        secv(*final(st)) == (SectionStateV { blocks: secv(*old(st)).blocks.push(b@), ..secv(*old(st)) }),
{
    let ghost before = blocks_view(st.blocks@);
    st.blocks.push(b);
    assert(blocks_view(st.blocks@) =~= before.push(b@));
    assert(secv(*st) =~= SectionStateV { blocks: secv(*old(st)).blocks.push(b@), ..secv(*old(st)) });
}

fn section_open_exec(st: &mut SectionState, name: &str, attrs: &Vec<XmlAttr>, images: &Vec<ImageRef>)
    ensures
        secv(*final(st)) == section_open(secv(*old(st)), name@, attrs_view(attrs@), image_refs_view(images@)),
{
    if st.tables.len() == 0 {
        match attr_val_local(attrs, "binaryItemIDRef") {
            Some(rid) => match find_image(images, rid.as_str()) {
                Some((alt, data)) => push_section_block(st, Block::Image { alt, data }),
                None => {},
            },
            None => {},
        }
    }
    let ghost s1 = secv(*st);
    assert(s1 == section_image(secv(*old(st)), attrs_view(attrs@), image_refs_view(images@)));
    let ln = local_name_of(name);
    if str_eq(ln.as_str(), "p") {
        st.para_text = String::new();
        st.para_style = attr_val(attrs, "styleIDRef");
    } else if str_eq(ln.as_str(), "t") {
        st.in_text = true;
    } else if str_eq(ln.as_str(), "tbl") {
        let t = new_table_ctx();
        let ghost before = tables_view(st.tables@);
        st.tables.push(t);
        assert(tables_view(st.tables@) =~= before.push(empty_table_ctx()));
    } else if str_eq(ln.as_str(), "tc") {
        clear_cell(&mut st.tables);
    }
    assert(secv(*st) =~= section_open(secv(*old(st)), name@, attrs_view(attrs@), image_refs_view(images@)));
}

fn section_paragraph_exec(st: &mut SectionState, styles: &Vec<(String, u8)>)
    ensures
        secv(*final(st)) == section_paragraph(secv(*old(st)), styles_view(styles@)),
{
    let text = collapse_ws(st.para_text.as_str());
    if text.as_str().is_empty() {
        return;
    }
    let level = match &st.para_style {
        Some(s) => find_style(styles, s.as_str()),
        None => None,
    };
    match level {
        Some(l) => push_section_block(st, Block::Heading { level: l, text }),
        None => {
            let ghost tv = text@;
            let runs = vec![Inline::Text(text)];
            assert(crate::ir::inlines_view(runs@) =~= seq![InlineV::Text(tv)]);
            push_section_block(st, Block::Paragraph(runs));
        },
    }
}

fn section_end_table_exec(st: &mut SectionState)
    ensures
        secv(*final(st)) == section_end_table(secv(*old(st))),
{
    match st.tables.pop() {
        None => {},
        Some(ctx) => {
            assert(tables_view(st.tables@) =~= tables_view(old(st).tables@).drop_last());
            let table = into_table(ctx);
            if st.tables.len() > 0 {
                let mut text = String::new();
                append_rows_text(&mut text, &table.rows);
                assert(text@ =~= rows_text(table@.rows));
                append_cell(&mut st.tables, text.as_str());
            } else {
                push_section_block(st, Block::Table(table));
            }
            assert(secv(*st) =~= section_end_table(secv(*old(st))));
        },
    }
}

fn section_close_exec(st: &mut SectionState, name: &str, styles: &Vec<(String, u8)>)
    ensures
        secv(*final(st)) == section_close(secv(*old(st)), name@, styles_view(styles@)),
{
    let ln = local_name_of(name);
    if str_eq(ln.as_str(), "t") {
        st.in_text = false;
    } else if str_eq(ln.as_str(), "p") {
        if st.tables.len() > 0 {
            para_space(&mut st.tables);
        } else {
            section_paragraph_exec(st, styles);
        }
    } else if str_eq(ln.as_str(), "tc") {
        end_cell(&mut st.tables);
    } else if str_eq(ln.as_str(), "tr") {
        end_row(&mut st.tables);
    } else if str_eq(ln.as_str(), "tbl") {
        section_end_table_exec(st);
    }
    assert(secv(*st) =~= section_close(secv(*old(st)), name@, styles_view(styles@)));
}

proof fn lemma_section_error_stays(evs: Seq<XmlEventV>, blocks: Seq<BlockV>, styles: Seq<(Seq<char>, u8)>, images: Seq<ImageRefV>, k: int)
    requires
        0 <= k <= evs.len(),
        section_fold(evs.take(k), blocks, styles, images) is Err,
    ensures
        section_fold(evs, blocks, styles, images) == section_fold(evs.take(k), blocks, styles, images),
    decreases evs.len() - k,
{
    if k < evs.len() {
        assert(evs.take(k + 1).drop_last() =~= evs.take(k));
        lemma_section_error_stays(evs, blocks, styles, images, k + 1);
    } else {
        assert(evs.take(k) =~= evs);
    }
}

/// Adds the blocks of one section.
fn parse_section(xml: &str, styles: &Vec<(String, u8)>, images: &Vec<ImageRef>, blocks: &mut Vec<Block>) -> (r: Result<(), String>)
    ensures
        match r {
            Ok(_) => section_spec(xml@, blocks_view(old(blocks)@), styles_view(styles@), image_refs_view(images@))
                == Ok::<Seq<BlockV>, Seq<char>>(blocks_view(final(blocks)@)),
            Err(m) => section_spec(xml@, blocks_view(old(blocks)@), styles_view(styles@), image_refs_view(images@))
                == Err::<Seq<BlockV>, Seq<char>>(m@),
        },
{
    let (evs, err) = read_all(xml);
    let ghost ev = events_view(evs@);
    let ghost b0 = blocks_view(blocks@);
    let ghost sv = styles_view(styles@);
    let ghost iv = image_refs_view(images@);
    let mut taken: Vec<Block> = Vec::new();
    std::mem::swap(&mut taken, blocks);
    let mut st = SectionState { blocks: taken, para_text: String::new(), para_style: None, in_text: false, tables: Vec::new() };
    assert(secv(st) =~= SectionStateV { blocks: b0, para_text: Seq::empty(), para_style: None, in_text: false, tables: Seq::empty() });
    assert(ev.take(0) =~= Seq::<XmlEventV>::empty());
    let mut i: usize = 0;
    while i < evs.len()
        invariant
            i <= evs@.len(),
            ev == events_view(evs@),
            ev == xml_read(xml@).0,
            sv == styles_view(styles@),
            iv == image_refs_view(images@),
            b0 == blocks_view(old(blocks)@),
            section_fold(ev.take(i as int), b0, sv, iv) == Ok::<SectionStateV, Seq<char>>(secv(st)),
        decreases evs@.len() - i,
    {
        assert(ev.take(i + 1).drop_last() =~= ev.take(i as int));
        assert(ev.take(i + 1).last() == event_view(evs@[i as int]));
        match &evs[i] {
            XmlEvent::Start { name, attrs } | XmlEvent::Empty { name, attrs } => {
                section_open_exec(&mut st, name.as_str(), attrs, images);
            },
            XmlEvent::Text { text } => {
                if st.in_text {
                    match text {
                        Err(m) => {
                            let msg = concat("hp:t: ", m.as_str());
                            proof {
                                assert(ev[i as int] == (XmlEventV::Text { text: Err(m@) }));
                                assert(section_fold(ev.take(i + 1), b0, sv, iv) == Err::<SectionStateV, Seq<char>>(msg@));
                                lemma_section_error_stays(ev, b0, sv, iv, i + 1);
                            }
                            return Err(msg);
                        },
                        Ok(s) => {
                            if st.tables.len() > 0 {
                                append_cell(&mut st.tables, s.as_str());
                            } else {
                                st.para_text.append(s.as_str());
                            }
                        },
                    }
                }
            },
            XmlEvent::End { name } => section_close_exec(&mut st, name.as_str(), styles),
            XmlEvent::Other => {},
        }
        i = i + 1;
    }
    assert(ev.take(evs@.len() as int) =~= ev);
    match err {
        Some(m) => Err(concat("section: ", m.as_str())),
        None => {
            *blocks = st.blocks;
            Ok(())
        },
    }
}

// ── the parser ──────────────────────────────────────────────────

/// The section parts in natural order.
pub open spec fn section_names(es: Seq<(Seq<char>, Seq<u8>)>) -> Seq<Seq<char>> {
    natural_sort(matching_names(es, "Contents/section"@, ".xml"@))
}

/// The blocks of the first `k` sections.
pub open spec fn hwpx_sections(es: Seq<(Seq<char>, Seq<u8>)>, names: Seq<Seq<char>>, styles: Seq<(Seq<char>, u8)>, images: Seq<ImageRefV>, k: nat) -> Result<Seq<BlockV>, ParseErrorV>
    decreases k,
{
    if k == 0 {
        Ok(Seq::empty())
    } else {
        match hwpx_sections(es, names, styles, images, (k - 1) as nat) {
            Err(e) => Err(e),
            Ok(blocks) => {
                let name = names[k - 1];
                match get_str_spec(es, name, "hwpx"@) {
                    Err(e) => Err(e),
                    Ok(None) => Err(container_error("hwpx"@, "missing "@ + name)),
                    Ok(Some(x)) => match section_spec(x, blocks, styles, images) {
                        Err(m) => Err(markup_error("hwpx"@, m)),
                        Ok(b) => Ok(b),
                    },
                }
            },
        }
    }
}

proof fn lemma_sections_error_stays(es: Seq<(Seq<char>, Seq<u8>)>, names: Seq<Seq<char>>, styles: Seq<(Seq<char>, u8)>, images: Seq<ImageRefV>, k: nat, n: nat)
    requires
        k <= n,
        hwpx_sections(es, names, styles, images, k) is Err,
    ensures
        hwpx_sections(es, names, styles, images, n) == hwpx_sections(es, names, styles, images, k),
    decreases n - k,
{
    if k < n {
        lemma_sections_error_stays(es, names, styles, images, k, (n - 1) as nat);
    }
}

/// What parsing an HWPX file gives: the package, the header styles, the
/// sections (at least one), the title, the images and the section bodies,
/// each failure in that order.
pub open spec fn hwpx_parse_spec(input: Seq<u8>, filename: Seq<char>) -> Result<DocumentV, ParseErrorV> {
    match package_spec(input) {
        Err(m) => Err(container_error("hwpx"@, m)),
        Ok(es) => match hwpx_styles_spec(es) {
            Err(e) => Err(e),
            Ok(styles) => {
                let names = section_names(es);
                if names.len() == 0 {
                    Err(container_error("hwpx"@, "no Contents/section*.xml"@))
                } else {
                    match hwpx_images_spec(es) {
                        Err(e) => Err(e),
                        Ok(images) => match hwpx_sections(es, names, styles, images, names.len()) {
                            Err(e) => Err(e),
                            Ok(blocks) => Ok(DocumentV {
                                metadata: MetadataV {
                                    title: hwpx_title_spec(es),
                                    author: None,
                                    created_at: None,
                                    source_format: SourceFormat::Hwpx,
                                    original_filename: filename,
                                    page_count: None,
                                    language: None,
                                },
                                blocks,
                            }),
                        },
                    }
                }
            },
        },
    }
}

/// Hancom HWPX documents (`.hwpx`).
pub struct HwpxParser;

impl FormatParser for HwpxParser {
    open spec fn spec_name(&self) -> Seq<char> {
        "hwpx"@
    }

    open spec fn spec_extensions(&self) -> Seq<Seq<char>> {
        seq!["hwpx"@]
    }

    open spec fn spec_accepts(&self, header: Seq<u8>) -> bool {
        false
    }

    open spec fn spec_parse(&self, input: Seq<u8>, filename: Seq<char>) -> Result<DocumentV, ParseErrorV> {
        hwpx_parse_spec(input, filename)
    }

    fn supported_extensions(&self) -> (r: &[&'static str]) {
        let r: &[&'static str] = &["hwpx"];
        assert(r@.map_values(|s: &str| s@) =~= seq!["hwpx"@]);
        r
    }

    fn can_parse_bytes(&self, header: &[u8]) -> (r: bool) {
        false
    }

    fn name(&self) -> (r: &'static str) {
        "hwpx"
    }

    fn parse(&self, input: &[u8], filename: &str) -> (r: Result<Document, ParseError>) {
        let pkg = match OoxmlPackage::from_reader(input, "hwpx") {
            Ok(p) => p,
            Err(e) => return Err(e),
        };
        let styles = match parse_header_styles(&pkg) {
            Ok(s) => s,
            Err(e) => return Err(e),
        };
        let sections = pkg.names_matching("Contents/section", ".xml");
        if sections.len() == 0 {
            return Err(ParseError::container("hwpx", "no Contents/section*.xml".to_owned()));
        }
        let mut metadata = DocumentMetadata::new(SourceFormat::Hwpx, filename);
        metadata.title = parse_title(&pkg);
        let images = match build_images(&pkg) {
            Ok(v) => v,
            Err(e) => return Err(e),
        };
        let ghost es = pkg@;
        let ghost names = sections@.map_values(|s: String| s@);
        let ghost sv = styles_view(styles@);
        let ghost iv = image_refs_view(images@);
        let mut blocks: Vec<Block> = Vec::new();
        assert(blocks_view(blocks@) =~= Seq::<BlockV>::empty());
        let mut i: usize = 0;
        while i < sections.len()
            invariant
                i <= sections@.len(),
                es == pkg@,
                package_spec(input@) == Ok::<Seq<(Seq<char>, Seq<u8>)>, Seq<char>>(es),
                hwpx_styles_spec(es) == Ok::<Seq<(Seq<char>, u8)>, ParseErrorV>(sv),
                hwpx_images_spec(es) == Ok::<Seq<ImageRefV>, ParseErrorV>(iv),
                sv == styles_view(styles@),
                iv == image_refs_view(images@),
                names == sections@.map_values(|s: String| s@),
                names == section_names(es),
                names.len() > 0,
                metadata@ == (MetadataV {
                    title: hwpx_title_spec(es),
                    author: None,
                    created_at: None,
                    source_format: SourceFormat::Hwpx,
                    original_filename: filename@,
                    page_count: None,
                    language: None,
                }),
                hwpx_sections(es, names, sv, iv, i as nat) == Ok::<Seq<BlockV>, ParseErrorV>(blocks_view(blocks@)),
            decreases sections@.len() - i,
        {
            let section = &sections[i];
            assert(names[i as int] == section@);
            let xml = match pkg.get_str(section.as_str(), "hwpx") {
                Err(e) => {
                    proof {
                        lemma_sections_error_stays(es, names, sv, iv, (i + 1) as nat, names.len());
                    }
                    return Err(e);
                },
                Ok(None) => {
                    proof {
                        lemma_sections_error_stays(es, names, sv, iv, (i + 1) as nat, names.len());
                    }
                    return Err(ParseError::container("hwpx", concat("missing ", section.as_str())));
                },
                Ok(Some(x)) => x,
            };
            match parse_section(xml.as_str(), &styles, &images, &mut blocks) {
                Ok(()) => {},
                Err(m) => {
                    proof {
                        lemma_sections_error_stays(es, names, sv, iv, (i + 1) as nat, names.len());
                    }
                    return Err(ParseError::markup("hwpx", m));
                },
            }
            i = i + 1;
        }
        Ok(Document { metadata, blocks })
    }
}

} // verus!
