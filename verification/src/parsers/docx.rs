//! DOCX: `word/styles.xml` gives style id → heading level, `word/document.xml`
//! the body (paragraphs, runs with bold / italic / strike, lists, tables,
//! pictures), `docProps/core.xml` the title and the author.

use vstd::prelude::*;
use crate::error::{container_error, markup_error, ParseError, ParseErrorV};
use crate::ir::{
    blocks_view, inlines_view, list_items_view, Block, BlockV, Document, DocumentMetadata,
    DocumentV, Inline, InlineV, ListItem, ListItemV, MetadataV, SourceFormat,
};
use crate::media::{ascii_lower, ascii_lowercase};
use crate::parsers::common::{
    append_cell, append_rows_text, clear_cell, empty_table_ctx, end_cell, end_row, find_style,
    heading_number, heading_number_of, inline_plain, inlines_plain, into_table, into_table_spec, new_table_ctx,
    is_zip_magic, para_space, plain_text, rows_text, zip_magic, style_lookup, styles_view, tables_append, tables_clear_cell,
    tables_end_cell, tables_end_row, tables_para_space, tables_view, with_last, TableCtx, TableCtxV,
};
use crate::parsers::natural::is_digit;
use crate::parsers::ooxml::{
    concat3, find_image, get_str_spec, image_lookup, image_refs_view, image_rels_spec, package_spec,
    ImageRef, ImageRefV, OoxmlPackage,
};
use crate::parsers::xml::{
    attr_lookup, attr_val, attrs_view, event_view, events_view, read_all, xml_read, XmlAttr,
    XmlAttrV, XmlEvent, XmlEventV,
};
use crate::registry::{parse_result_view, FormatParser};
use crate::strs::{trim, trim_string};
use crate::text::{chars_of, has_prefix, is_blank, is_blank_str, str_eq, sub_chars, string_of};

verus! {

// ── heading levels from style ids and names ─────────────────────

/// `s` without its leading characters that are not ASCII digits.
pub open spec fn skip_non_digits(s: Seq<char>) -> Seq<char>
    decreases s.len(),
{
    if s.len() > 0 && !is_digit(s[0]) { skip_non_digits(s.drop_first()) } else { s }
}

/// `s` without its trailing characters that are not ASCII digits.
pub open spec fn chop_non_digits(s: Seq<char>) -> Seq<char>
    decreases s.len(),
{
    if s.len() > 0 && !is_digit(s.last()) { chop_non_digits(s.drop_last()) } else { s }
}

/// The level a lower-cased style name or id stands for: `title` 1,
/// `subtitle` 2, `heading…` the number in what follows (1 when there is none).
pub open spec fn lower_name_level(s: Seq<char>) -> Option<u8> {
    if s == "title"@ {
        Some(1u8)
    } else if s == "subtitle"@ {
        Some(2u8)
    } else if has_prefix(s, "heading"@) {
        Some(heading_number(chop_non_digits(skip_non_digits(s.skip(7)))))
    } else {
        None
    }
}

/// The heading level of a style: by its name first, then by its id.
pub open spec fn docx_heading_level(style_id: Seq<char>, style_name: Seq<char>) -> Option<u8> {
    match lower_name_level(ascii_lower(style_name)) {
        Some(l) => Some(l),
        None => lower_name_level(ascii_lower(style_id)),
    }
}

fn trim_non_digits(cs: &Vec<char>, from: usize) -> (r: String)
    requires
        from <= cs@.len(),
    ensures
        r@ == chop_non_digits(skip_non_digits(cs@.skip(from as int))),
{
    let mut a = from;
    while a < cs.len() && !('0' <= cs[a] && cs[a] <= '9')
        invariant
            from <= a <= cs@.len(),
            skip_non_digits(cs@.skip(from as int)) == skip_non_digits(cs@.skip(a as int)),
        decreases cs@.len() - a,
    {
        assert(cs@.skip(a as int).drop_first() =~= cs@.skip(a + 1));
        a = a + 1;
    }
    assert(skip_non_digits(cs@.skip(a as int)) == cs@.skip(a as int)) by {
        if a < cs@.len() {
            assert(cs@.skip(a as int)[0] == cs@[a as int]);
        }
    }
    let mut b = cs.len();
    assert(cs@.skip(a as int) =~= cs@.subrange(a as int, b as int));
    while b > a && !('0' <= cs[b - 1] && cs[b - 1] <= '9')
        invariant
            a <= b <= cs@.len(),
            chop_non_digits(cs@.skip(a as int)) == chop_non_digits(cs@.subrange(a as int, b as int)),
        decreases b,
    {
        assert(cs@.subrange(a as int, b as int).drop_last() =~= cs@.subrange(a as int, b - 1));
        b = b - 1;
    }
    let r = sub_chars(cs, a, b);
    assert(chop_non_digits(r@) == r@) by {
        if b > a {
            assert(r@.last() == cs@[b - 1]);
        }
    }
    string_of(r.as_slice())
}

fn lower_name_level_exec(s: &str) -> (r: Option<u8>)
    ensures
        r == lower_name_level(s@),
{
    if str_eq(s, "title") {
        Some(1)
    } else if str_eq(s, "subtitle") {
        Some(2)
    } else if crate::text::starts_with_str(s, "heading") {
        proof {
            reveal_strlit("heading");
        }
        let cs = chars_of(s);
        let digits = trim_non_digits(&cs, 7);
        Some(heading_number_of(digits.as_str()))
    } else {
        None
    }
}

/// [`docx_heading_level`] computed.
pub fn heading_level(style_id: &str, style_name: &str) -> (r: Option<u8>)
    ensures
        r == docx_heading_level(style_id@, style_name@),
{
    let name = ascii_lowercase(chars_of(style_name).as_slice());
    match lower_name_level_exec(name.as_str()) {
        Some(l) => Some(l),
        None => {
            let id = ascii_lowercase(chars_of(style_id).as_slice());
            lower_name_level_exec(id.as_str())
        },
    }
}

// ── word/styles.xml ─────────────────────────────────────────────

/// The scan of `styles.xml`: the levels found so far and the id of the
/// `<w:style>` being read.
pub struct StyleScanV {
    pub levels: Seq<(Seq<char>, u8)>,
    pub cur_id: Option<Seq<char>>,
}

/// `<w:name w:val>` inside a style: its name decides the level.
pub open spec fn style_name_spec(st: StyleScanV, attrs: Seq<XmlAttrV>) -> StyleScanV {
    match (st.cur_id, attr_lookup(attrs, "w:val"@)) {
        (Some(id), Some(n)) => match docx_heading_level(id, n) {
            Some(l) => StyleScanV { levels: st.levels.push((id, l)), cur_id: st.cur_id },
            None => st,
        },
        _ => st,
    }
}

/// `</w:style>`: a style without a level so far may still get one from its id.
pub open spec fn style_end_spec(st: StyleScanV) -> StyleScanV {
    match st.cur_id {
        Some(id) => {
            let levels = if style_lookup(st.levels, id) is None {
                match docx_heading_level(id, id) {
                    Some(l) => st.levels.push((id, l)),
                    None => st.levels,
                }
            } else {
                st.levels
            };
            StyleScanV { levels, cur_id: None }
        },
        None => st,
    }
}

pub open spec fn styles_step(st: StyleScanV, ev: XmlEventV) -> StyleScanV {
    match ev {
        XmlEventV::Start { name, attrs } => if name == "w:style"@ {
            StyleScanV { levels: st.levels, cur_id: attr_lookup(attrs, "w:styleId"@) }
        } else if name == "w:name"@ {
            style_name_spec(st, attrs)
        } else {
            st
        },
        XmlEventV::Empty { name, attrs } => if name == "w:name"@ {
            style_name_spec(st, attrs)
        } else {
            st
        },
        XmlEventV::End { name } => if name == "w:style"@ {
            style_end_spec(st)
        } else {
            st
        },
        _ => st,
    }
}

pub open spec fn styles_fold(evs: Seq<XmlEventV>) -> StyleScanV
    decreases evs.len(),
{
    if evs.len() == 0 {
        StyleScanV { levels: Seq::empty(), cur_id: None }
    } else {
        styles_step(styles_fold(evs.drop_last()), evs.last())
    }
}

/// Style id → heading level from `word/styles.xml` (none when it is absent).
pub open spec fn docx_styles_spec(es: Seq<(Seq<char>, Seq<u8>)>) -> Result<Seq<(Seq<char>, u8)>, ParseErrorV> {
    match get_str_spec(es, "word/styles.xml"@, "docx"@) {
        Err(e) => Err(e),
        Ok(None) => Ok(Seq::empty()),
        Ok(Some(x)) => match xml_read(x).1 {
            Some(m) => Err(markup_error("docx"@, "styles.xml: "@ + m)),
            None => Ok(styles_fold(xml_read(x).0).levels),
        },
    }
}

struct StyleScan {
    levels: Vec<(String, u8)>,
    cur_id: Option<String>,
}

spec fn style_scan_view(s: StyleScan) -> StyleScanV {
    StyleScanV {
        levels: styles_view(s.levels@),
        cur_id: match s.cur_id {
            Some(x) => Some(x@),
            None => None,
        },
    }
}

fn style_name_exec(st: &mut StyleScan, attrs: &Vec<XmlAttr>)
    ensures
        style_scan_view(*final(st)) == style_name_spec(style_scan_view(*old(st)), attrs_view(attrs@)),
{
    let v = attr_val(attrs, "w:val");
    match (&st.cur_id, v) {
        (Some(id), Some(n)) => match heading_level(id.as_str(), n.as_str()) {
            Some(l) => {
                let idc = id.clone();
                let ghost before = styles_view(st.levels@);
                st.levels.push((idc, l));
                assert(styles_view(st.levels@) =~= before.push((idc@, l)));
            },
            None => {},
        },
        _ => {},
    }
}

fn style_end_exec(st: &mut StyleScan)
    ensures
        style_scan_view(*final(st)) == style_end_spec(style_scan_view(*old(st))),
{
    let cur = st.cur_id.take();
    match cur {
        Some(id) => {
            if find_style(&st.levels, id.as_str()).is_none() {
                match heading_level(id.as_str(), id.as_str()) {
                    Some(l) => {
                        let ghost before = styles_view(st.levels@);
                        st.levels.push((id, l));
                        assert(styles_view(st.levels@) =~= before.push((id@, l)));
                    },
                    None => {},
                }
            }
        },
        None => {},
    }
}

fn parse_styles(pkg: &OoxmlPackage) -> (r: Result<Vec<(String, u8)>, ParseError>)
    ensures
        match r {
            Ok(v) => docx_styles_spec(pkg@) == Ok::<Seq<(Seq<char>, u8)>, ParseErrorV>(styles_view(v@)),
            Err(e) => docx_styles_spec(pkg@) == Err::<Seq<(Seq<char>, u8)>, ParseErrorV>(e@),
        },
{
    let xml = match pkg.get_str("word/styles.xml", "docx") {
        Err(e) => return Err(e),
        Ok(None) => {
            let v: Vec<(String, u8)> = Vec::new();
            assert(styles_view(v@) =~= Seq::<(Seq<char>, u8)>::empty());
            return Ok(v);
        },
        Ok(Some(x)) => x,
    };
    let (evs, err) = read_all(xml.as_str());
    match err {
        Some(m) => return Err(ParseError::markup("docx", crate::text::concat("styles.xml: ", m.as_str()))),
        None => {},
    }
    let ghost ev = events_view(evs@);
    let mut st = StyleScan { levels: Vec::new(), cur_id: None };
    assert(ev.take(0).len() == 0);
    assert(styles_view(st.levels@) =~= Seq::<(Seq<char>, u8)>::empty());
    assert(style_scan_view(st) == styles_fold(ev.take(0)));
    let mut i: usize = 0;
    while i < evs.len()
        invariant
            i <= evs@.len(),
            ev == events_view(evs@),
            style_scan_view(st) == styles_fold(ev.take(i as int)),
        decreases evs@.len() - i,
    {
        assert(ev.take(i + 1).drop_last() =~= ev.take(i as int));
        assert(ev.take(i + 1).last() == event_view(evs@[i as int]));
        match &evs[i] {
            XmlEvent::Start { name, attrs } => {
                if str_eq(name.as_str(), "w:style") {
                    st.cur_id = attr_val(attrs, "w:styleId");
                } else if str_eq(name.as_str(), "w:name") {
                    style_name_exec(&mut st, attrs);
                }
            },
            XmlEvent::Empty { name, attrs } => {
                if str_eq(name.as_str(), "w:name") {
                    style_name_exec(&mut st, attrs);
                }
            },
            XmlEvent::End { name } => {
                if str_eq(name.as_str(), "w:style") {
                    style_end_exec(&mut st);
                }
            },
            _ => {},
        }
        i = i + 1;
    }
    assert(ev.take(evs@.len() as int) =~= ev);
    Ok(st.levels)
}

// ── docProps/core.xml ───────────────────────────────────────────

/// Which metadata field the text being read belongs to.
#[derive(Debug, Clone, Copy, PartialEq, Eq, Structural)]
pub enum CoreField {
    Title,
    Author,
}

pub struct CoreScanV {
    pub title: Option<Seq<char>>,
    pub author: Option<Seq<char>>,
    pub cur: Option<CoreField>,
}

pub open spec fn core_step(st: CoreScanV, ev: XmlEventV) -> Result<CoreScanV, Seq<char>> {
    match ev {
        XmlEventV::Start { name, .. } => Ok(CoreScanV {
            title: st.title,
            author: st.author,
            cur: if name == "dc:title"@ {
                Some(CoreField::Title)
            } else if name == "dc:creator"@ {
                Some(CoreField::Author)
            } else {
                None
            },
        }),
        XmlEventV::Text { text } => match st.cur {
            Some(f) => match text {
                Err(m) => Err("core.xml: "@ + m),
                Ok(s) => {
                    let v = trim(s);
                    if v.len() == 0 {
                        Ok(st)
                    } else if f == CoreField::Title {
                        Ok(CoreScanV { title: Some(v), author: st.author, cur: st.cur })
                    } else {
                        Ok(CoreScanV { title: st.title, author: Some(v), cur: st.cur })
                    }
                },
            },
            None => Ok(st),
        },
        XmlEventV::End { .. } => Ok(CoreScanV { title: st.title, author: st.author, cur: None }),
        _ => Ok(st),
    }
}

pub open spec fn core_fold(evs: Seq<XmlEventV>) -> Result<CoreScanV, Seq<char>>
    decreases evs.len(),
{
    if evs.len() == 0 {
        Ok(CoreScanV { title: None, author: None, cur: None })
    } else {
        match core_fold(evs.drop_last()) {
            Err(m) => Err(m),
            Ok(st) => core_step(st, evs.last()),
        }
    }
}

/// Title and author from `docProps/core.xml` (none when it is absent).
pub open spec fn docx_core_spec(es: Seq<(Seq<char>, Seq<u8>)>) -> Result<(Option<Seq<char>>, Option<Seq<char>>), ParseErrorV> {
    match get_str_spec(es, "docProps/core.xml"@, "docx"@) {
        Err(e) => Err(e),
        Ok(None) => Ok((None, None)),
        Ok(Some(x)) => match core_fold(xml_read(x).0) {
            Err(m) => Err(markup_error("docx"@, m)),
            Ok(st) => match xml_read(x).1 {
                Some(m) => Err(markup_error("docx"@, "core.xml: "@ + m)),
                None => Ok((st.title, st.author)),
            },
        },
    }
}

proof fn lemma_core_error_stays(evs: Seq<XmlEventV>, k: int)
    requires
        0 <= k <= evs.len(),
        core_fold(evs.take(k)) is Err,
    ensures
        core_fold(evs) == core_fold(evs.take(k)),
    decreases evs.len() - k,
{
    if k < evs.len() {
        assert(evs.take(k + 1).drop_last() =~= evs.take(k));
        lemma_core_error_stays(evs, k + 1);
    } else {
        assert(evs.take(k) =~= evs);
    }
}

fn parse_core_props(pkg: &OoxmlPackage) -> (r: Result<(Option<String>, Option<String>), ParseError>)
    ensures
        match r {
            Ok(p) => docx_core_spec(pkg@) == Ok::<(Option<Seq<char>>, Option<Seq<char>>), ParseErrorV>(
                (crate::ir::opt_str_view(p.0), crate::ir::opt_str_view(p.1)),
            ),
            Err(e) => docx_core_spec(pkg@) == Err::<(Option<Seq<char>>, Option<Seq<char>>), ParseErrorV>(e@),
        },
{
    let xml = match pkg.get_str("docProps/core.xml", "docx") {
        Err(e) => return Err(e),
        Ok(None) => return Ok((None, None)),
        Ok(Some(x)) => x,
    };
    let (evs, err) = read_all(xml.as_str());
    let ghost ev = events_view(evs@);
    let mut title: Option<String> = None;
    let mut author: Option<String> = None;
    let mut cur: Option<CoreField> = None;
    let mut i: usize = 0;
    assert(ev.take(0) =~= Seq::<XmlEventV>::empty());
    while i < evs.len()
        invariant
            i <= evs@.len(),
            ev == events_view(evs@),
            ev == xml_read(xml@).0,
            get_str_spec(pkg@, "docProps/core.xml"@, "docx"@) == Ok::<Option<Seq<char>>, ParseErrorV>(Some(xml@)),
            core_fold(ev.take(i as int)) == Ok::<CoreScanV, Seq<char>>(CoreScanV {
                title: crate::ir::opt_str_view(title),
                author: crate::ir::opt_str_view(author),
                cur,
            }),
        decreases evs@.len() - i,
    {
        assert(ev.take(i + 1).drop_last() =~= ev.take(i as int));
        assert(ev.take(i + 1).last() == event_view(evs@[i as int]));
        match &evs[i] {
            XmlEvent::Start { name, .. } => {
                cur = if str_eq(name.as_str(), "dc:title") {
                    Some(CoreField::Title)
                } else if str_eq(name.as_str(), "dc:creator") {
                    Some(CoreField::Author)
                } else {
                    None
                };
            },
            XmlEvent::Text { text } => {
                match cur {
                    Some(f) => match text {
                        Err(m) => {
                            proof {
                                assert(ev[i as int] == (XmlEventV::Text { text: Err(m@) }));
                                assert(core_fold(ev.take(i + 1)) == Err::<CoreScanV, Seq<char>>("core.xml: "@ + m@));
                                lemma_core_error_stays(ev, i + 1);
                            }
                            return Err(ParseError::markup("docx", crate::text::concat("core.xml: ", m.as_str())));
                        },
                        Ok(s) => {
                            let v = trim_string(s.as_str());
                            if !v.as_str().is_empty() {
                                match f {
                                    CoreField::Title => title = Some(v),
                                    CoreField::Author => author = Some(v),
                                }
                            }
                        },
                    },
                    None => {},
                }
            },
            XmlEvent::End { .. } => {
                cur = None;
            },
            _ => {},
        }
        i = i + 1;
    }
    assert(ev.take(evs@.len() as int) =~= ev);
    match err {
        Some(m) => Err(ParseError::markup("docx", crate::text::concat("core.xml: ", m.as_str()))),
        None => Ok((title, author)),
    }
}


// ── word/document.xml ───────────────────────────────────────────

/// The state of the body scan.
#[verifier::ext_equal]
pub struct DocxStateV {
    pub blocks: Seq<BlockV>,
    pub pending: Seq<ListItemV>,
    pub in_drawing: bool,
    pub runs: Seq<InlineV>,
    pub para_style: Option<Seq<char>>,
    pub is_list_item: bool,
    pub bold: bool,
    pub italic: bool,
    pub strike: bool,
    pub in_rpr: bool,
    pub in_text: bool,
    pub tables: Seq<TableCtxV>,
}

pub open spec fn docx_init() -> DocxStateV {
    DocxStateV {
        blocks: Seq::empty(),
        pending: Seq::empty(),
        in_drawing: false,
        runs: Seq::empty(),
        para_style: None,
        is_list_item: false,
        bold: false,
        italic: false,
        strike: false,
        in_rpr: false,
        in_text: false,
        tables: Seq::empty(),
    }
}

/// A text run with its formatting (strike innermost, bold outermost).
pub open spec fn styled(s: Seq<char>, bold: bool, italic: bool, strike: bool) -> InlineV {
    let t = InlineV::Text(s);
    let t = if strike { InlineV::Strike(Box::new(t)) } else { t };
    let t = if italic { InlineV::Italic(Box::new(t)) } else { t };
    if bold { InlineV::Bold(Box::new(t)) } else { t }
}

/// Text goes to the innermost table cell (plain) or to the paragraph's runs
/// (formatted); a line break is a space in a cell.
pub open spec fn push_text_spec(st: DocxStateV, text: Option<Seq<char>>, bold: bool, italic: bool, strike: bool, line_break: bool) -> DocxStateV {
    if st.tables.len() > 0 {
        if line_break {
            DocxStateV { tables: tables_append(st.tables, " "@), ..st }
        } else {
            match text {
                Some(s) => DocxStateV { tables: tables_append(st.tables, s), ..st },
                None => st,
            }
        }
    } else if line_break {
        DocxStateV { runs: st.runs.push(InlineV::LineBreak), ..st }
    } else {
        match text {
            Some(s) => DocxStateV { runs: st.runs.push(styled(s, bold, italic, strike)), ..st },
            None => st,
        }
    }
}

/// The list items gathered so far become a bullet list.
pub open spec fn flush_spec(st: DocxStateV) -> DocxStateV {
    if st.pending.len() > 0 {
        DocxStateV {
            blocks: st.blocks.push(BlockV::List { ordered: false, items: st.pending }),
            pending: Seq::empty(),
            ..st
        }
    } else {
        st
    }
}

/// The heading level of a paragraph style: recorded in `styles.xml`, else read from the id.
pub open spec fn docx_level(para_style: Option<Seq<char>>, styles: Seq<(Seq<char>, u8)>) -> Option<u8> {
    match para_style {
        None => None,
        Some(s) => match style_lookup(styles, s) {
            Some(l) => Some(l),
            None => docx_heading_level(s, s),
        },
    }
}

/// A paragraph ends outside tables: a heading, a list item or a paragraph
/// (blank ones are dropped); its runs are used up.
pub open spec fn emit_paragraph_spec(st: DocxStateV, styles: Seq<(Seq<char>, u8)>) -> DocxStateV {
    let runs = st.runs;
    let plain = inlines_plain(runs);
    let s0 = DocxStateV { runs: Seq::empty(), ..st };
    match docx_level(st.para_style, styles) {
        Some(level) => {
            let f = flush_spec(s0);
            if !is_blank(plain) {
                DocxStateV { blocks: f.blocks.push(BlockV::Heading { level, text: plain }), ..f }
            } else {
                f
            }
        },
        None => if st.is_list_item {
            if runs.len() > 0 {
                DocxStateV { pending: s0.pending.push(ListItemV { content: runs, sublist: None }), ..s0 }
            } else {
                s0
            }
        } else {
            let f = flush_spec(s0);
            if !is_blank(plain) {
                DocxStateV { blocks: f.blocks.push(BlockV::Paragraph(runs)), ..f }
            } else {
                f
            }
        },
    }
}

/// `<a:blip r:embed>` inside a drawing and outside tables: the image it refers to.
pub open spec fn emit_image_spec(st: DocxStateV, attrs: Seq<XmlAttrV>, images: Seq<ImageRefV>) -> DocxStateV {
    if !st.in_drawing || st.tables.len() > 0 {
        st
    } else {
        match attr_lookup(attrs, "r:embed"@) {
            None => st,
            Some(rid) => match image_lookup(images, rid) {
                None => st,
                Some(r) => {
                    let f = flush_spec(st);
                    DocxStateV { blocks: f.blocks.push(BlockV::Image { alt: r.alt, data: r.data }), ..f }
                },
            },
        }
    }
}

/// A table ends: a nested one becomes plain text of its parent cell, an outer one a block.
pub open spec fn end_table_spec(st: DocxStateV) -> DocxStateV {
    if st.tables.len() == 0 {
        st
    } else {
        let table = into_table_spec(st.tables.last());
        let rest = st.tables.drop_last();
        if rest.len() > 0 {
            DocxStateV { tables: tables_append(rest, rows_text(table.rows)), ..st }
        } else {
            let f = flush_spec(DocxStateV { tables: rest, ..st });
            DocxStateV { blocks: f.blocks.push(BlockV::Table(table)), ..f }
        }
    }
}

/// `w:val` of `<w:b>`, `<w:i>`, `<w:strike>`: `false`, `0` and `none` turn it off.
pub open spec fn is_off(attrs: Seq<XmlAttrV>) -> bool {
    let v = attr_lookup(attrs, "w:val"@);
    v == Some("false"@) || v == Some("0"@) || v == Some("none"@)
}

pub open spec fn set_style_spec(st: DocxStateV, attrs: Seq<XmlAttrV>) -> DocxStateV {
    match attr_lookup(attrs, "w:val"@) {
        Some(v) => DocxStateV { para_style: Some(v), ..st },
        None => st,
    }
}

pub open spec fn docx_start(st: DocxStateV, name: Seq<char>, attrs: Seq<XmlAttrV>, images: Seq<ImageRefV>) -> DocxStateV {
    if name == "w:p"@ {
        DocxStateV { runs: Seq::empty(), para_style: None, is_list_item: false, ..st }
    } else if name == "w:r"@ {
        DocxStateV { bold: false, italic: false, strike: false, ..st }
    } else if name == "w:rPr"@ {
        DocxStateV { in_rpr: true, ..st }
    } else if name == "w:t"@ {
        DocxStateV { in_text: true, ..st }
    } else if name == "w:pStyle"@ {
        set_style_spec(st, attrs)
    } else if name == "w:numPr"@ {
        DocxStateV { is_list_item: true, ..st }
    } else if name == "w:tbl"@ {
        DocxStateV { tables: st.tables.push(empty_table_ctx()), ..st }
    } else if name == "w:drawing"@ || name == "w:pict"@ {
        DocxStateV { in_drawing: true, ..st }
    } else if name == "a:blip"@ {
        emit_image_spec(st, attrs, images)
    } else if name == "w:tc"@ {
        DocxStateV { tables: tables_clear_cell(st.tables), ..st }
    } else if name == "w:b"@ && st.in_rpr {
        DocxStateV { bold: !is_off(attrs), ..st }
    } else if name == "w:i"@ && st.in_rpr {
        DocxStateV { italic: !is_off(attrs), ..st }
    } else if name == "w:strike"@ && st.in_rpr {
        DocxStateV { strike: !is_off(attrs), ..st }
    } else {
        st
    }
}

pub open spec fn docx_empty(st: DocxStateV, name: Seq<char>, attrs: Seq<XmlAttrV>, images: Seq<ImageRefV>) -> DocxStateV {
    if name == "w:pStyle"@ {
        set_style_spec(st, attrs)
    } else if name == "w:numPr"@ {
        DocxStateV { is_list_item: true, ..st }
    } else if name == "w:b"@ && st.in_rpr {
        DocxStateV { bold: !is_off(attrs), ..st }
    } else if name == "w:i"@ && st.in_rpr {
        DocxStateV { italic: !is_off(attrs), ..st }
    } else if name == "w:strike"@ && st.in_rpr {
        DocxStateV { strike: !is_off(attrs), ..st }
    } else if name == "w:br"@ {
        push_text_spec(st, None, false, false, false, true)
    } else if name == "w:tab"@ {
        push_text_spec(st, Some("\t"@), false, false, false, false)
    } else if name == "a:blip"@ {
        emit_image_spec(st, attrs, images)
    } else {
        st
    }
}

pub open spec fn docx_end(st: DocxStateV, name: Seq<char>, styles: Seq<(Seq<char>, u8)>) -> DocxStateV {
    if name == "w:rPr"@ {
        DocxStateV { in_rpr: false, ..st }
    } else if name == "w:drawing"@ || name == "w:pict"@ {
        DocxStateV { in_drawing: false, ..st }
    } else if name == "w:t"@ {
        DocxStateV { in_text: false, ..st }
    } else if name == "w:tc"@ {
        DocxStateV { tables: tables_end_cell(st.tables), ..st }
    } else if name == "w:tr"@ {
        DocxStateV { tables: tables_end_row(st.tables), ..st }
    } else if name == "w:tbl"@ {
        end_table_spec(st)
    } else if name == "w:p"@ {
        if st.tables.len() == 0 {
            emit_paragraph_spec(st, styles)
        } else {
            DocxStateV { tables: tables_para_space(st.tables), ..st }
        }
    } else {
        st
    }
}

pub open spec fn docx_step(st: DocxStateV, ev: XmlEventV, styles: Seq<(Seq<char>, u8)>, images: Seq<ImageRefV>) -> Result<DocxStateV, Seq<char>> {
    match ev {
        XmlEventV::Start { name, attrs } => Ok(docx_start(st, name, attrs, images)),
        XmlEventV::Empty { name, attrs } => Ok(docx_empty(st, name, attrs, images)),
        XmlEventV::End { name } => Ok(docx_end(st, name, styles)),
        XmlEventV::Text { text } => if st.in_text {
            match text {
                Err(m) => Err("w:t: "@ + m),
                Ok(s) => Ok(push_text_spec(st, Some(s), st.bold, st.italic, st.strike, false)),
            }
        } else {
            Ok(st)
        },
        XmlEventV::Other => Ok(st),
    }
}

pub open spec fn docx_fold(evs: Seq<XmlEventV>, styles: Seq<(Seq<char>, u8)>, images: Seq<ImageRefV>) -> Result<DocxStateV, Seq<char>>
    decreases evs.len(),
{
    if evs.len() == 0 {
        Ok(docx_init())
    } else {
        match docx_fold(evs.drop_last(), styles, images) {
            Err(m) => Err(m),
            Ok(st) => docx_step(st, evs.last(), styles, images),
        }
    }
}

/// The blocks of `document.xml`, or the detail of the markup error.
pub open spec fn docx_body_spec(xml: Seq<char>, styles: Seq<(Seq<char>, u8)>, images: Seq<ImageRefV>) -> Result<Seq<BlockV>, Seq<char>> {
    match docx_fold(xml_read(xml).0, styles, images) {
        Err(m) => Err(m),
        Ok(st) => match xml_read(xml).1 {
            Some(m) => Err("document.xml: "@ + m),
            None => Ok(flush_spec(st).blocks),
        },
    }
}

struct DocxState {
    blocks: Vec<Block>,
    pending: Vec<ListItem>,
    in_drawing: bool,
    runs: Vec<Inline>,
    para_style: Option<String>,
    is_list_item: bool,
    bold: bool,
    italic: bool,
    strike: bool,
    in_rpr: bool,
    in_text: bool,
    tables: Vec<TableCtx>,
}

spec fn dv(s: DocxState) -> DocxStateV {
    DocxStateV {
        blocks: blocks_view(s.blocks@),
        pending: list_items_view(s.pending@),
        in_drawing: s.in_drawing,
        runs: inlines_view(s.runs@),
        para_style: crate::ir::opt_str_view(s.para_style),
        is_list_item: s.is_list_item,
        bold: s.bold,
        italic: s.italic,
        strike: s.strike,
        in_rpr: s.in_rpr,
        in_text: s.in_text,
        tables: tables_view(s.tables@),
    }
}

pub fn styled_inline(s: String, bold: bool, italic: bool, strike: bool) -> (r: Inline)
    ensures
        r@ == styled(s@, bold, italic, strike),
{
    let ghost v0 = InlineV::Text(s@);
    let t0 = Inline::Text(s);
    assert(t0@ == v0);
    let ghost v1 = if strike { InlineV::Strike(Box::new(v0)) } else { v0 };
    let t1 = if strike { Inline::Strike(Box::new(t0)) } else { t0 };
    assert(t1@ == v1);
    let ghost v2 = if italic { InlineV::Italic(Box::new(v1)) } else { v1 };
    let t2 = if italic { Inline::Italic(Box::new(t1)) } else { t1 };
    assert(t2@ == v2);
    let t3 = if bold { Inline::Bold(Box::new(t2)) } else { t2 };
    t3
}

fn push_text(st: &mut DocxState, text: Option<&str>, bold: bool, italic: bool, strike: bool, line_break: bool)
    ensures
        dv(*final(st)) == push_text_spec(
            dv(*old(st)),
            match text {
                Some(t) => Some(t@),
                None => None,
            },
            bold,
            italic,
            strike,
            line_break,
        ),
{
    let ghost tv = match text {
        Some(t) => Some(t@),
        None => None::<Seq<char>>,
    };
    if st.tables.len() > 0 {
        if line_break {
            append_cell(&mut st.tables, " ");
            assert(dv(*st) =~= push_text_spec(dv(*old(st)), tv, bold, italic, strike, line_break));
        } else {
            match text {
                Some(s) => {
                    append_cell(&mut st.tables, s);
                    assert(dv(*st) =~= push_text_spec(dv(*old(st)), tv, bold, italic, strike, line_break));
                },
                None => {},
            }
        }
    } else if line_break {
        let ghost before = inlines_view(st.runs@);
        st.runs.push(Inline::LineBreak);
        assert(inlines_view(st.runs@) =~= before.push(InlineV::LineBreak));
        assert(dv(*st) =~= push_text_spec(dv(*old(st)), tv, bold, italic, strike, line_break));
    } else {
        match text {
            Some(s) => {
                let inl = styled_inline(s.to_owned(), bold, italic, strike);
                let ghost before = inlines_view(st.runs@);
                st.runs.push(inl);
                assert(inlines_view(st.runs@) =~= before.push(inl@));
                assert(dv(*st) =~= push_text_spec(dv(*old(st)), tv, bold, italic, strike, line_break));
            },
            None => {},
        }
    }
}

fn flush_pending(st: &mut DocxState)
    ensures
        dv(*final(st)) == flush_spec(dv(*old(st))),
{
    if st.pending.len() > 0 {
        let mut items: Vec<ListItem> = Vec::new();
        std::mem::swap(&mut items, &mut st.pending);
        let b = Block::List { ordered: false, items };
        let ghost before = blocks_view(st.blocks@);
        st.blocks.push(b);
        assert(blocks_view(st.blocks@) =~= before.push(b@));
        assert(list_items_view(st.pending@) =~= Seq::<ListItemV>::empty());
        assert(dv(*st) =~= flush_spec(dv(*old(st))));
    }
}

fn docx_level_exec(para_style: &Option<String>, styles: &Vec<(String, u8)>) -> (r: Option<u8>)
    ensures
        r == docx_level(crate::ir::opt_str_view(*para_style), styles_view(styles@)),
{
    match para_style {
        None => None,
        Some(s) => match find_style(styles, s.as_str()) {
            Some(l) => Some(l),
            None => heading_level(s.as_str(), s.as_str()),
        },
    }
}

#[verifier::rlimit(40)]
fn emit_paragraph(st: &mut DocxState, styles: &Vec<(String, u8)>)
    ensures
        dv(*final(st)) == emit_paragraph_spec(dv(*old(st)), styles_view(styles@)),
{
    let mut runs: Vec<Inline> = Vec::new();
    std::mem::swap(&mut runs, &mut st.runs);
    assert(inlines_view(st.runs@) =~= Seq::<InlineV>::empty());
    let ghost s0 = dv(*st);
    assert(s0 =~= DocxStateV { runs: Seq::empty(), ..dv(*old(st)) });
    let plain = plain_text(&runs);
    match docx_level_exec(&st.para_style, styles) {
        Some(level) => {
            flush_pending(st);
            if !is_blank_str(plain.as_str()) {
                let b = Block::Heading { level, text: plain };
                let ghost before = blocks_view(st.blocks@);
                st.blocks.push(b);
                assert(blocks_view(st.blocks@) =~= before.push(b@));
            }
        },
        None => {
            if st.is_list_item {
                if runs.len() > 0 {
                    let item = ListItem::new(runs);
                    proof {
                        crate::ir::lemma_list_items_view_push(st.pending@, item);
                    }
                    st.pending.push(item);
                }
            } else {
                flush_pending(st);
                if !is_blank_str(plain.as_str()) {
                    let b = Block::Paragraph(runs);
                    let ghost before = blocks_view(st.blocks@);
                    st.blocks.push(b);
                    assert(blocks_view(st.blocks@) =~= before.push(b@));
                }
            }
        },
    }
    assert(dv(*st) =~= emit_paragraph_spec(dv(*old(st)), styles_view(styles@)));
}

fn emit_image(st: &mut DocxState, attrs: &Vec<XmlAttr>, images: &Vec<ImageRef>)
    ensures
        dv(*final(st)) == emit_image_spec(dv(*old(st)), attrs_view(attrs@), image_refs_view(images@)),
{
    if !st.in_drawing || st.tables.len() > 0 {
        return;
    }
    match attr_val(attrs, "r:embed") {
        None => {},
        Some(rid) => match find_image(images, rid.as_str()) {
            None => {},
            Some((alt, data)) => {
                flush_pending(st);
                let b = Block::Image { alt, data };
                let ghost before = blocks_view(st.blocks@);
                st.blocks.push(b);
                assert(blocks_view(st.blocks@) =~= before.push(b@));
                assert(dv(*st) =~= emit_image_spec(dv(*old(st)), attrs_view(attrs@), image_refs_view(images@)));
            },
        },
    }
}

fn end_table(st: &mut DocxState)
    ensures
        dv(*final(st)) == end_table_spec(dv(*old(st))),
{
    match st.tables.pop() {
        None => {},
        Some(ctx) => {
            let ghost tv = tables_view(old(st).tables@);
            assert(tables_view(st.tables@) =~= tv.drop_last());
            let table = into_table(ctx);
            if st.tables.len() > 0 {
                let mut text = String::new();
                append_rows_text(&mut text, &table.rows);
                assert(text@ =~= rows_text(table@.rows));
                append_cell(&mut st.tables, text.as_str());
            } else {
                flush_pending(st);
                let b = Block::Table(table);
                let ghost before = blocks_view(st.blocks@);
                st.blocks.push(b);
                assert(blocks_view(st.blocks@) =~= before.push(b@));
            }
            assert(dv(*st) =~= end_table_spec(dv(*old(st))));
        },
    }
}

fn is_off_exec(attrs: &Vec<XmlAttr>) -> (r: bool)
    ensures
        r == is_off(attrs_view(attrs@)),
{
    match attr_val(attrs, "w:val") {
        Some(v) => str_eq(v.as_str(), "false") || str_eq(v.as_str(), "0") || str_eq(v.as_str(), "none"),
        None => false,
    }
}

fn set_style(st: &mut DocxState, attrs: &Vec<XmlAttr>)
    ensures
        dv(*final(st)) == set_style_spec(dv(*old(st)), attrs_view(attrs@)),
{
    match attr_val(attrs, "w:val") {
        Some(v) => {
            st.para_style = Some(v);
            assert(dv(*st) =~= set_style_spec(dv(*old(st)), attrs_view(attrs@)));
        },
        None => {},
    }
}

fn start_event(st: &mut DocxState, name: &str, attrs: &Vec<XmlAttr>, images: &Vec<ImageRef>)
    ensures
        dv(*final(st)) == docx_start(dv(*old(st)), name@, attrs_view(attrs@), image_refs_view(images@)),
{
    if str_eq(name, "w:p") {
        st.runs = Vec::new();
        st.para_style = None;
        st.is_list_item = false;
        assert(inlines_view(st.runs@) =~= Seq::<InlineV>::empty());
    } else if str_eq(name, "w:r") {
        st.bold = false;
        st.italic = false;
        st.strike = false;
    } else if str_eq(name, "w:rPr") {
        st.in_rpr = true;
    } else if str_eq(name, "w:t") {
        st.in_text = true;
    } else if str_eq(name, "w:pStyle") {
        set_style(st, attrs);
    } else if str_eq(name, "w:numPr") {
        st.is_list_item = true;
    } else if str_eq(name, "w:tbl") {
        let t = new_table_ctx();
        let ghost before = tables_view(st.tables@);
        st.tables.push(t);
        assert(tables_view(st.tables@) =~= before.push(empty_table_ctx()));
    } else if str_eq(name, "w:drawing") || str_eq(name, "w:pict") {
        st.in_drawing = true;
    } else if str_eq(name, "a:blip") {
        emit_image(st, attrs, images);
    } else if str_eq(name, "w:tc") {
        clear_cell(&mut st.tables);
    } else if str_eq(name, "w:b") && st.in_rpr {
        st.bold = !is_off_exec(attrs);
    } else if str_eq(name, "w:i") && st.in_rpr {
        st.italic = !is_off_exec(attrs);
    } else if str_eq(name, "w:strike") && st.in_rpr {
        st.strike = !is_off_exec(attrs);
    }
    assert(dv(*st) =~= docx_start(dv(*old(st)), name@, attrs_view(attrs@), image_refs_view(images@)));
}

fn empty_event(st: &mut DocxState, name: &str, attrs: &Vec<XmlAttr>, images: &Vec<ImageRef>)
    ensures
        dv(*final(st)) == docx_empty(dv(*old(st)), name@, attrs_view(attrs@), image_refs_view(images@)),
{
    if str_eq(name, "w:pStyle") {
        set_style(st, attrs);
    } else if str_eq(name, "w:numPr") {
        st.is_list_item = true;
    } else if str_eq(name, "w:b") && st.in_rpr {
        st.bold = !is_off_exec(attrs);
    } else if str_eq(name, "w:i") && st.in_rpr {
        st.italic = !is_off_exec(attrs);
    } else if str_eq(name, "w:strike") && st.in_rpr {
        st.strike = !is_off_exec(attrs);
    } else if str_eq(name, "w:br") {
        push_text(st, None, false, false, false, true);
    } else if str_eq(name, "w:tab") {
        push_text(st, Some("\t"), false, false, false, false);
    } else if str_eq(name, "a:blip") {
        emit_image(st, attrs, images);
    }
    assert(dv(*st) =~= docx_empty(dv(*old(st)), name@, attrs_view(attrs@), image_refs_view(images@)));
}

fn end_event(st: &mut DocxState, name: &str, styles: &Vec<(String, u8)>)
    ensures
        dv(*final(st)) == docx_end(dv(*old(st)), name@, styles_view(styles@)),
{
    if str_eq(name, "w:rPr") {
        st.in_rpr = false;
    } else if str_eq(name, "w:drawing") || str_eq(name, "w:pict") {
        st.in_drawing = false;
    } else if str_eq(name, "w:t") {
        st.in_text = false;
    } else if str_eq(name, "w:tc") {
        end_cell(&mut st.tables);
    } else if str_eq(name, "w:tr") {
        end_row(&mut st.tables);
    } else if str_eq(name, "w:tbl") {
        end_table(st);
    } else if str_eq(name, "w:p") {
        if st.tables.len() == 0 {
            emit_paragraph(st, styles);
        } else {
            para_space(&mut st.tables);
        }
    }
    assert(dv(*st) =~= docx_end(dv(*old(st)), name@, styles_view(styles@)));
}

proof fn lemma_docx_error_stays(evs: Seq<XmlEventV>, styles: Seq<(Seq<char>, u8)>, images: Seq<ImageRefV>, k: int)
    requires
        0 <= k <= evs.len(),
        docx_fold(evs.take(k), styles, images) is Err,
    ensures
        docx_fold(evs, styles, images) == docx_fold(evs.take(k), styles, images),
    decreases evs.len() - k,
{
    if k < evs.len() {
        assert(evs.take(k + 1).drop_last() =~= evs.take(k));
        lemma_docx_error_stays(evs, styles, images, k + 1);
    } else {
        assert(evs.take(k) =~= evs);
    }
}

/// The blocks of `document.xml`.
fn parse_body(xml: &str, styles: &Vec<(String, u8)>, images: &Vec<ImageRef>) -> (r: Result<Vec<Block>, String>)
    ensures
        match r {
            Ok(b) => docx_body_spec(xml@, styles_view(styles@), image_refs_view(images@)) == Ok::<Seq<BlockV>, Seq<char>>(blocks_view(b@)),
            Err(m) => docx_body_spec(xml@, styles_view(styles@), image_refs_view(images@)) == Err::<Seq<BlockV>, Seq<char>>(m@),
        },
{
    let (evs, err) = read_all(xml);
    let ghost ev = events_view(evs@);
    let ghost sv = styles_view(styles@);
    let ghost iv = image_refs_view(images@);
    let mut st = DocxState {
        blocks: Vec::new(),
        pending: Vec::new(),
        in_drawing: false,
        runs: Vec::new(),
        para_style: None,
        is_list_item: false,
        bold: false,
        italic: false,
        strike: false,
        in_rpr: false,
        in_text: false,
        tables: Vec::new(),
    };
    assert(dv(st) =~= docx_init());
    assert(ev.take(0) =~= Seq::<XmlEventV>::empty());
    let mut i: usize = 0;
    while i < evs.len()
        invariant
            i <= evs@.len(),
            ev == events_view(evs@),
            ev == xml_read(xml@).0,
            sv == styles_view(styles@),
            iv == image_refs_view(images@),
            docx_fold(ev.take(i as int), sv, iv) == Ok::<DocxStateV, Seq<char>>(dv(st)),
        decreases evs@.len() - i,
    {
        assert(ev.take(i + 1).drop_last() =~= ev.take(i as int));
        assert(ev.take(i + 1).last() == event_view(evs@[i as int]));
        match &evs[i] {
            XmlEvent::Start { name, attrs } => start_event(&mut st, name.as_str(), attrs, images),
            XmlEvent::Empty { name, attrs } => empty_event(&mut st, name.as_str(), attrs, images),
            XmlEvent::End { name } => end_event(&mut st, name.as_str(), styles),
            XmlEvent::Text { text } => {
                if st.in_text {
                    match text {
                        Err(m) => {
                            let msg = crate::text::concat("w:t: ", m.as_str());
                            proof {
                                lemma_docx_error_stays(ev, sv, iv, i + 1);
                            }
                            return Err(msg);
                        },
                        Ok(s) => {
                            let (b, it, k) = (st.bold, st.italic, st.strike);
                            push_text(&mut st, Some(s.as_str()), b, it, k, false);
                        },
                    }
                }
            },
            XmlEvent::Other => {},
        }
        i = i + 1;
    }
    assert(ev.take(evs@.len() as int) =~= ev);
    match err {
        Some(m) => Err(crate::text::concat("document.xml: ", m.as_str())),
        None => {
            flush_pending(&mut st);
            Ok(st.blocks)
        },
    }
}

// ── the parser ──────────────────────────────────────────────────

proof fn lemma_docx_fold_push(pre: Seq<XmlEventV>, e: XmlEventV, styles: Seq<(Seq<char>, u8)>, images: Seq<ImageRefV>)
    ensures
        docx_fold(pre.push(e), styles, images) == match docx_fold(pre, styles, images) {
            Err(m) => Err(m),
            Ok(st) => docx_step(st, e, styles, images),
        },
{
    assert(pre.push(e).drop_last() =~= pre);
}

/// Outside tables, a paragraph holding one run whose properties hold an
/// empty `<w:i/>` and whose text is not blank becomes a paragraph block of
/// that text: in italics unless `w:val` turns it off (`false`, `0`,
/// `none`), whatever came before it.
#[verifier::rlimit(60)]
pub proof fn law_docx_italic_run(
    pre: Seq<XmlEventV>,
    styles: Seq<(Seq<char>, u8)>,
    images: Seq<ImageRefV>,
    pattrs: Seq<XmlAttrV>,
    rattrs: Seq<XmlAttrV>,
    iattrs: Seq<XmlAttrV>,
    s: Seq<char>,
)
    requires
        docx_fold(pre, styles, images) matches Ok(st) && st.tables.len() == 0,
        !is_blank(s),
    ensures
        ({
            let evs = pre + seq![
                XmlEventV::Start { name: "w:p"@, attrs: pattrs },
                XmlEventV::Start { name: "w:r"@, attrs: rattrs },
                XmlEventV::Start { name: "w:rPr"@, attrs: Seq::empty() },
                XmlEventV::Empty { name: "w:i"@, attrs: iattrs },
                XmlEventV::End { name: "w:rPr"@ },
                XmlEventV::Start { name: "w:t"@, attrs: Seq::empty() },
                XmlEventV::Text { text: Ok(s) },
                XmlEventV::End { name: "w:t"@ },
                XmlEventV::End { name: "w:r"@ },
                XmlEventV::End { name: "w:p"@ },
            ];
            docx_fold(evs, styles, images) matches Ok(st2) && st2.blocks.last() == BlockV::Paragraph(
                if is_off(iattrs) {
                    seq![InlineV::Text(s)]
                } else {
                    seq![InlineV::Italic(Box::new(InlineV::Text(s)))]
                },
            )
        }),
{
    reveal_strlit("w:p");
    reveal_strlit("w:r");
    reveal_strlit("w:rPr");
    reveal_strlit("w:t");
    reveal_strlit("w:pStyle");
    reveal_strlit("w:numPr");
    reveal_strlit("w:tbl");
    reveal_strlit("w:drawing");
    reveal_strlit("w:pict");
    reveal_strlit("a:blip");
    reveal_strlit("w:tc");
    reveal_strlit("w:tr");
    reveal_strlit("w:b");
    reveal_strlit("w:i");
    reveal_strlit("w:strike");
    reveal_strlit("w:br");
    reveal_strlit("w:tab");
    let e0 = XmlEventV::Start { name: "w:p"@, attrs: pattrs };
    let e1 = XmlEventV::Start { name: "w:r"@, attrs: rattrs };
    let e2 = XmlEventV::Start { name: "w:rPr"@, attrs: Seq::empty() };
    let e3 = XmlEventV::Empty { name: "w:i"@, attrs: iattrs };
    let e4 = XmlEventV::End { name: "w:rPr"@ };
    let e5 = XmlEventV::Start { name: "w:t"@, attrs: Seq::empty() };
    let e6 = XmlEventV::Text { text: Ok(s) };
    let e7 = XmlEventV::End { name: "w:t"@ };
    let e8 = XmlEventV::End { name: "w:r"@ };
    let e9 = XmlEventV::End { name: "w:p"@ };
    let p1 = pre.push(e0);
    let p2 = p1.push(e1);
    let p3 = p2.push(e2);
    let p4 = p3.push(e3);
    let p5 = p4.push(e4);
    let p6 = p5.push(e5);
    let p7 = p6.push(e6);
    let p8 = p7.push(e7);
    let p9 = p8.push(e8);
    let p10 = p9.push(e9);
    assert(p10 =~= pre + seq![e0, e1, e2, e3, e4, e5, e6, e7, e8, e9]);
    lemma_docx_fold_push(pre, e0, styles, images);
    lemma_docx_fold_push(p1, e1, styles, images);
    lemma_docx_fold_push(p2, e2, styles, images);
    lemma_docx_fold_push(p3, e3, styles, images);
    lemma_docx_fold_push(p4, e4, styles, images);
    lemma_docx_fold_push(p5, e5, styles, images);
    lemma_docx_fold_push(p6, e6, styles, images);
    lemma_docx_fold_push(p7, e7, styles, images);
    lemma_docx_fold_push(p8, e8, styles, images);
    lemma_docx_fold_push(p9, e9, styles, images);
    let st = docx_fold(pre, styles, images)->Ok_0;
    let s1 = docx_start(st, "w:p"@, pattrs, images);
    assert(s1 == DocxStateV { runs: Seq::empty(), para_style: None, is_list_item: false, ..st });
    assert(docx_fold(p1, styles, images) == Ok::<DocxStateV, Seq<char>>(s1));
    let s2 = docx_start(s1, "w:r"@, rattrs, images);
    assert(s2 == DocxStateV { bold: false, italic: false, strike: false, ..s1 });
    assert(docx_fold(p2, styles, images) == Ok::<DocxStateV, Seq<char>>(s2));
    assert("w:rPr"@.len() == 5 && "w:pStyle"@.len() == 8 && "w:numPr"@.len() == 7 && "w:drawing"@.len() == 9);
    assert("w:pict"@.len() == 6 && "w:tbl"@.len() == 5 && "w:strike"@.len() == 8 && "a:blip"@.len() == 6);
    assert("w:tc"@.len() == 4 && "w:tr"@.len() == 4 && "w:br"@.len() == 4 && "w:tab"@.len() == 5);
    assert("w:p"@.len() == 3 && "w:r"@.len() == 3 && "w:t"@.len() == 3 && "w:b"@.len() == 3 && "w:i"@.len() == 3);
    assert("w:p"@[2] == 'p' && "w:r"@[2] == 'r' && "w:t"@[2] == 't' && "w:b"@[2] == 'b' && "w:i"@[2] == 'i');
    let s3 = docx_start(s2, "w:rPr"@, Seq::empty(), images);
    assert(s3 == DocxStateV { in_rpr: true, ..s2 });
    assert(docx_fold(p3, styles, images) == Ok::<DocxStateV, Seq<char>>(s3));
    let s4 = docx_empty(s3, "w:i"@, iattrs, images);
    assert(s4 == DocxStateV { italic: !is_off(iattrs), ..s3 });
    assert(docx_fold(p4, styles, images) == Ok::<DocxStateV, Seq<char>>(s4));
    let s5 = docx_end(s4, "w:rPr"@, styles);
    assert(s5 == DocxStateV { in_rpr: false, ..s4 });
    assert(docx_fold(p5, styles, images) == Ok::<DocxStateV, Seq<char>>(s5));
    let s6 = docx_start(s5, "w:t"@, Seq::empty(), images);
    assert(s6 == DocxStateV { in_text: true, ..s5 });
    assert(docx_fold(p6, styles, images) == Ok::<DocxStateV, Seq<char>>(s6));
    let it = if is_off(iattrs) { InlineV::Text(s) } else { InlineV::Italic(Box::new(InlineV::Text(s))) };
    assert(styled(s, false, !is_off(iattrs), false) == it);
    let s7 = push_text_spec(s6, Some(s), false, !is_off(iattrs), false, false);
    assert(s7 == DocxStateV { runs: seq![it], ..s6 }) by {
        assert(Seq::<InlineV>::empty().push(it) =~= seq![it]);
    }
    assert(docx_fold(p7, styles, images) == Ok::<DocxStateV, Seq<char>>(s7));
    let s8 = docx_end(s7, "w:t"@, styles);
    assert(s8 == DocxStateV { in_text: false, ..s7 });
    assert(docx_fold(p8, styles, images) == Ok::<DocxStateV, Seq<char>>(s8));
    let s9 = docx_end(s8, "w:r"@, styles);
    assert(s9 == s8);
    assert(docx_fold(p9, styles, images) == Ok::<DocxStateV, Seq<char>>(s9));
    assert(inlines_plain(seq![it]) == s) by {
        assert(seq![it].drop_last() =~= Seq::<InlineV>::empty());
        if !is_off(iattrs) {
            assert(inline_plain(it) == inline_plain(InlineV::Text(s)));
        }
    }
    assert(docx_level(s9.para_style, styles) is None);
    let s10 = docx_end(s9, "w:p"@, styles);
    assert(s10 == emit_paragraph_spec(s9, styles));
    assert(s10.blocks.last() == BlockV::Paragraph(seq![it]));
}

/// What parsing a DOCX file gives: the package, the styles, the body, the
/// core properties and the pictures, each failure in that order.
pub open spec fn docx_parse_spec(input: Seq<u8>, filename: Seq<char>) -> Result<DocumentV, ParseErrorV> {
    match package_spec(input) {
        Err(m) => Err(container_error("docx"@, m)),
        Ok(es) => match docx_styles_spec(es) {
            Err(e) => Err(e),
            Ok(styles) => match get_str_spec(es, "word/document.xml"@, "docx"@) {
                Err(e) => Err(e),
                Ok(None) => Err(container_error("docx"@, "missing word/document.xml"@)),
                Ok(Some(doc)) => match docx_core_spec(es) {
                    Err(e) => Err(e),
                    Ok(tp) => match image_rels_spec(es, "word/document.xml"@, "docx"@) {
                        Err(e) => Err(e),
                        Ok(images) => match docx_body_spec(doc, styles, images) {
                            Err(m) => Err(markup_error("docx"@, m)),
                            Ok(blocks) => Ok(DocumentV {
                                metadata: MetadataV {
                                    title: tp.0,
                                    author: tp.1,
                                    created_at: None,
                                    source_format: SourceFormat::Docx,
                                    original_filename: filename,
                                    page_count: None,
                                    language: None,
                                },
                                blocks,
                            }),
                        },
                    },
                },
            },
        },
    }
}

/// Word documents (`.docx`).
pub struct DocxParser;

impl FormatParser for DocxParser {
    open spec fn spec_name(&self) -> Seq<char> {
        "docx"@
    }

    open spec fn spec_extensions(&self) -> Seq<Seq<char>> {
        seq!["docx"@]
    }

    open spec fn spec_accepts(&self, header: Seq<u8>) -> bool {
        zip_magic(header)
    }

    open spec fn spec_parse(&self, input: Seq<u8>, filename: Seq<char>) -> Result<DocumentV, ParseErrorV> {
        docx_parse_spec(input, filename)
    }

    fn supported_extensions(&self) -> (r: &[&'static str]) {
        let r: &[&'static str] = &["docx"];
        assert(r@.map_values(|s: &str| s@) =~= seq!["docx"@]);
        r
    }

    fn can_parse_bytes(&self, header: &[u8]) -> (r: bool) {
        is_zip_magic(header)
    }

    fn name(&self) -> (r: &'static str) {
        "docx"
    }

    fn parse(&self, input: &[u8], filename: &str) -> (r: Result<Document, ParseError>) {
        let pkg = match OoxmlPackage::from_reader(input, "docx") {
            Ok(p) => p,
            Err(e) => return Err(e),
        };
        let styles = match parse_styles(&pkg) {
            Ok(s) => s,
            Err(e) => return Err(e),
        };
        let doc_xml = match pkg.get_str("word/document.xml", "docx") {
            Err(e) => return Err(e),
            Ok(None) => return Err(ParseError::container("docx", "missing word/document.xml".to_owned())),
            Ok(Some(x)) => x,
        };
        let mut metadata = DocumentMetadata::new(SourceFormat::Docx, filename);
        let (title, author) = match parse_core_props(&pkg) {
            Ok(p) => p,
            Err(e) => return Err(e),
        };
        metadata.title = title;
        metadata.author = author;
        let images = match pkg.image_rels("word/document.xml", "docx") {
            Ok(v) => v,
            Err(e) => return Err(e),
        };
        let blocks = match parse_body(doc_xml.as_str(), &styles, &images) {
            Ok(b) => b,
            Err(m) => return Err(ParseError::markup("docx", m)),
        };
        Ok(Document { metadata, blocks })
    }
}
} // verus!
