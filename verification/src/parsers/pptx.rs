//! PPTX: the slides `ppt/slides/slideN.xml` in natural order, a page break
//! between slides; title placeholders become level-2 headings, text boxes
//! paragraphs (bold / italic kept), DrawingML tables tables and pictures images.

use vstd::prelude::*;
use crate::error::{container_error, markup_error, ParseError, ParseErrorV};
use crate::ir::{
    blocks_view, inlines_view, Block, BlockV, Document, DocumentMetadata, DocumentV, Inline,
    InlineV, MetadataV, SourceFormat,
};
use crate::parsers::common::{
    append_cell, inline_plain, inlines_plain, plain_text, clear_cell, clear_row, empty_table_ctx, end_cell, end_row, into_table,
    into_table_spec, is_zip_magic, new_table_ctx, para_space, tables_append, tables_clear_cell,
    tables_clear_row, tables_end_cell, tables_end_row, tables_para_space, tables_view, zip_magic,
    TableCtx, TableCtxV,
};
use crate::parsers::natural::natural_sort;
use crate::parsers::ooxml::{
    concat3, find_image, get_str_spec, image_lookup, image_refs_view, image_rels_spec,
    matching_names, package_spec, ImageRef, ImageRefV, OoxmlPackage,
};
use crate::parsers::xml::{
    attr_lookup, attr_val, attrs_view, event_view, events_view, read_all, xml_read, XmlAttr,
    XmlAttrV, XmlEvent, XmlEventV,
};
use crate::registry::{parse_result_view, FormatParser};
use crate::text::{concat, is_blank, is_blank_str, push_char, str_eq};

verus! {

/// The state of a slide scan.
#[verifier::ext_equal]
pub struct SlideStateV {
    pub blocks: Seq<BlockV>,
    pub is_title_shape: bool,
    pub runs: Seq<InlineV>,
    pub bold: bool,
    pub italic: bool,
    pub in_text: bool,
    pub in_pic: bool,
    pub tables: Seq<TableCtxV>,
}

pub open spec fn slide_init(blocks: Seq<BlockV>) -> SlideStateV {
    SlideStateV {
        blocks,
        is_title_shape: false,
        runs: Seq::empty(),
        bold: false,
        italic: false,
        in_text: false,
        in_pic: false,
        tables: Seq::empty(),
    }
}

/// DrawingML boolean attributes: `1` or `true`.
pub open spec fn is_on(attrs: Seq<XmlAttrV>, key: Seq<char>) -> bool {
    let v = attr_lookup(attrs, key);
    v == Some("1"@) || v == Some("true"@)
}

/// `<a:blip r:embed>` inside a picture and outside tables: the image it refers to.
pub open spec fn slide_image(st: SlideStateV, attrs: Seq<XmlAttrV>, images: Seq<ImageRefV>) -> SlideStateV {
    if !st.in_pic || st.tables.len() > 0 {
        st
    } else {
        match attr_lookup(attrs, "r:embed"@) {
            None => st,
            Some(rid) => match image_lookup(images, rid) {
                None => st,
                Some(r) => SlideStateV { blocks: st.blocks.push(BlockV::Image { alt: r.alt, data: r.data }), ..st },
            },
        }
    }
}

pub open spec fn slide_run_props(st: SlideStateV, attrs: Seq<XmlAttrV>) -> SlideStateV {
    SlideStateV { bold: is_on(attrs, "b"@), italic: is_on(attrs, "i"@), ..st }
}

pub open spec fn slide_start(st: SlideStateV, name: Seq<char>, attrs: Seq<XmlAttrV>, images: Seq<ImageRefV>) -> SlideStateV {
    if name == "p:sp"@ {
        SlideStateV { is_title_shape: false, ..st }
    } else if name == "p:pic"@ {
        SlideStateV { in_pic: true, ..st }
    } else if name == "a:tbl"@ {
        SlideStateV { tables: st.tables.push(empty_table_ctx()), ..st }
    } else if name == "a:tr"@ {
        SlideStateV { tables: tables_clear_row(st.tables), ..st }
    } else if name == "a:tc"@ {
        SlideStateV { tables: tables_clear_cell(st.tables), ..st }
    } else if name == "a:p"@ {
        SlideStateV { runs: Seq::empty(), ..st }
    } else if name == "a:rPr"@ {
        slide_run_props(st, attrs)
    } else if name == "a:t"@ {
        SlideStateV { in_text: true, ..st }
    } else if name == "a:blip"@ {
        slide_image(st, attrs, images)
    } else {
        st
    }
}

pub open spec fn slide_empty(st: SlideStateV, name: Seq<char>, attrs: Seq<XmlAttrV>, images: Seq<ImageRefV>) -> SlideStateV {
    if name == "p:ph"@ {
        let t = attr_lookup(attrs, "type"@);
        if t == Some("title"@) || t == Some("ctrTitle"@) {
            SlideStateV { is_title_shape: true, ..st }
        } else {
            st
        }
    } else if name == "a:rPr"@ {
        slide_run_props(st, attrs)
    } else if name == "a:br"@ {
        if st.tables.len() > 0 {
            SlideStateV { tables: tables_append(st.tables, " "@), ..st }
        } else {
            SlideStateV { runs: st.runs.push(InlineV::LineBreak), ..st }
        }
    } else if name == "a:blip"@ {
        slide_image(st, attrs, images)
    } else {
        st
    }
}

/// A paragraph ends outside tables: a level-2 heading in a title shape, else
/// a paragraph; one whose text (formatted runs included, at any depth) is
/// blank is dropped.
pub open spec fn slide_paragraph(st: SlideStateV) -> SlideStateV {
    let plain = inlines_plain(st.runs);
    let blocks = if !is_blank(plain) {
        if st.is_title_shape {
            st.blocks.push(BlockV::Heading { level: 2, text: plain })
        } else {
            st.blocks.push(BlockV::Paragraph(st.runs))
        }
    } else {
        st.blocks
    };
    SlideStateV { blocks, runs: Seq::empty(), ..st }
}

pub open spec fn slide_end(st: SlideStateV, name: Seq<char>) -> SlideStateV {
    if name == "a:t"@ {
        SlideStateV { in_text: false, ..st }
    } else if name == "a:r"@ {
        SlideStateV { bold: false, italic: false, ..st }
    } else if name == "p:pic"@ {
        SlideStateV { in_pic: false, ..st }
    } else if name == "a:tc"@ {
        SlideStateV { tables: tables_end_cell(st.tables), ..st }
    } else if name == "a:tr"@ {
        SlideStateV { tables: tables_end_row(st.tables), ..st }
    } else if name == "a:tbl"@ {
        if st.tables.len() > 0 {
            SlideStateV {
                blocks: st.blocks.push(BlockV::Table(into_table_spec(st.tables.last()))),
                tables: st.tables.drop_last(),
                ..st
            }
        } else {
            st
        }
    } else if name == "a:p"@ {
        if st.tables.len() > 0 {
            SlideStateV { tables: tables_para_space(st.tables), ..st }
        } else {
            slide_paragraph(st)
        }
    } else {
        st
    }
}

/// Slide text: plain in a table cell, else a run with its bold / italic.
pub open spec fn slide_text(st: SlideStateV, s: Seq<char>) -> SlideStateV {
    if st.tables.len() > 0 {
        SlideStateV { tables: tables_append(st.tables, s), ..st }
    } else {
        let t = InlineV::Text(s);
        let t = if st.italic { InlineV::Italic(Box::new(t)) } else { t };
        let t = if st.bold { InlineV::Bold(Box::new(t)) } else { t };
        SlideStateV { runs: st.runs.push(t), ..st }
    }
}

pub open spec fn slide_step(st: SlideStateV, ev: XmlEventV, images: Seq<ImageRefV>) -> Result<SlideStateV, Seq<char>> {
    match ev {
        XmlEventV::Start { name, attrs } => Ok(slide_start(st, name, attrs, images)),
        XmlEventV::Empty { name, attrs } => Ok(slide_empty(st, name, attrs, images)),
        XmlEventV::End { name } => Ok(slide_end(st, name)),
        XmlEventV::Text { text } => if st.in_text {
            match text {
                Err(m) => Err("a:t: "@ + m),
                Ok(s) => Ok(slide_text(st, s)),
            }
        } else {
            Ok(st)
        },
        XmlEventV::Other => Ok(st),
    }
}

pub open spec fn slide_fold(evs: Seq<XmlEventV>, blocks: Seq<BlockV>, images: Seq<ImageRefV>) -> Result<SlideStateV, Seq<char>>
    decreases evs.len(),
{
    if evs.len() == 0 {
        Ok(slide_init(blocks))
    } else {
        match slide_fold(evs.drop_last(), blocks, images) {
            Err(m) => Err(m),
            Ok(st) => slide_step(st, evs.last(), images),
        }
    }
}

proof fn lemma_slide_fold_push(pre: Seq<XmlEventV>, e: XmlEventV, blocks: Seq<BlockV>, images: Seq<ImageRefV>)
    ensures
        slide_fold(pre.push(e), blocks, images) == match slide_fold(pre, blocks, images) {
            Err(m) => Err(m),
            Ok(st) => slide_step(st, e, images),
        },
{
    assert(pre.push(e).drop_last() =~= pre);
}

/// Outside tables, a shape whose placeholder `<p:ph>` has type `title` or
/// `ctrTitle` (a slide title, or the centre title of a title slide) turns a
/// paragraph with non-blank text into a level-2 heading of that text,
/// whatever came before the shape and whatever the run's formatting; under
/// any other placeholder the paragraph stays a paragraph.
#[verifier::rlimit(80)]
pub proof fn law_title_placeholder_is_heading(
    pre: Seq<XmlEventV>,
    blocks: Seq<BlockV>,
    images: Seq<ImageRefV>,
    ph_attrs: Seq<XmlAttrV>,
    s: Seq<char>,
)
    requires
        slide_fold(pre, blocks, images) matches Ok(st) && st.tables.len() == 0,
        !is_blank(s),
    ensures
        ({
            let evs = pre + seq![
                XmlEventV::Start { name: "p:sp"@, attrs: Seq::empty() },
                XmlEventV::Start { name: "p:nvSpPr"@, attrs: Seq::empty() },
                XmlEventV::Start { name: "p:nvPr"@, attrs: Seq::empty() },
                XmlEventV::Empty { name: "p:ph"@, attrs: ph_attrs },
                XmlEventV::End { name: "p:nvPr"@ },
                XmlEventV::End { name: "p:nvSpPr"@ },
                XmlEventV::Start { name: "p:txBody"@, attrs: Seq::empty() },
                XmlEventV::Start { name: "a:p"@, attrs: Seq::empty() },
                XmlEventV::Start { name: "a:r"@, attrs: Seq::empty() },
                XmlEventV::Start { name: "a:t"@, attrs: Seq::empty() },
                XmlEventV::Text { text: Ok(s) },
                XmlEventV::End { name: "a:t"@ },
                XmlEventV::End { name: "a:r"@ },
                XmlEventV::End { name: "a:p"@ },
            ];
            slide_fold(evs, blocks, images) matches Ok(st2) && if attr_lookup(ph_attrs, "type"@) == Some("title"@)
                || attr_lookup(ph_attrs, "type"@) == Some("ctrTitle"@) {
                st2.blocks.last() == BlockV::Heading { level: 2, text: s }
            } else {
                st2.blocks.last() is Paragraph
            }
        }),
{
    reveal_strlit("p:sp");
    reveal_strlit("p:nvSpPr");
    reveal_strlit("p:nvPr");
    reveal_strlit("p:ph");
    reveal_strlit("p:txBody");
    reveal_strlit("p:pic");
    reveal_strlit("a:tbl");
    reveal_strlit("a:tr");
    reveal_strlit("a:tc");
    reveal_strlit("a:p");
    reveal_strlit("a:r");
    reveal_strlit("a:rPr");
    reveal_strlit("a:t");
    reveal_strlit("a:blip");
    reveal_strlit("a:br");
    assert("p:sp"@.len() == 4 && "p:nvSpPr"@.len() == 8 && "p:nvPr"@.len() == 6 && "p:ph"@.len() == 4);
    assert("p:txBody"@.len() == 8 && "p:pic"@.len() == 5 && "a:tbl"@.len() == 5 && "a:rPr"@.len() == 5);
    assert("a:tr"@.len() == 4 && "a:tc"@.len() == 4 && "a:br"@.len() == 4 && "a:blip"@.len() == 6);
    assert("a:p"@.len() == 3 && "a:r"@.len() == 3 && "a:t"@.len() == 3);
    assert("a:p"@[2] == 'p' && "a:r"@[2] == 'r' && "a:t"@[2] == 't');
    assert("p:nvPr"@[0] == 'p' && "a:blip"@[0] == 'a');
    assert("p:sp"@[2] == 's' && "p:ph"@[2] == 'p' && "a:tr"@[0] == 'a' && "a:tc"@[0] == 'a' && "a:br"@[0] == 'a');
    assert("p:nvSpPr"@[2] == 'n' && "p:txBody"@[2] == 't');
    let e0 = XmlEventV::Start { name: "p:sp"@, attrs: Seq::empty() };
    let e1 = XmlEventV::Start { name: "p:nvSpPr"@, attrs: Seq::empty() };
    let e2 = XmlEventV::Start { name: "p:nvPr"@, attrs: Seq::empty() };
    let e3 = XmlEventV::Empty { name: "p:ph"@, attrs: ph_attrs };
    let e4 = XmlEventV::End { name: "p:nvPr"@ };
    let e5 = XmlEventV::End { name: "p:nvSpPr"@ };
    let e6 = XmlEventV::Start { name: "p:txBody"@, attrs: Seq::empty() };
    let e7 = XmlEventV::Start { name: "a:p"@, attrs: Seq::empty() };
    let e8 = XmlEventV::Start { name: "a:r"@, attrs: Seq::empty() };
    let e9 = XmlEventV::Start { name: "a:t"@, attrs: Seq::empty() };
    let e10 = XmlEventV::Text { text: Ok(s) };
    let e11 = XmlEventV::End { name: "a:t"@ };
    let e12 = XmlEventV::End { name: "a:r"@ };
    let e13 = XmlEventV::End { name: "a:p"@ };
    let p1 = pre.push(e0);
    let p2 = p1.push(e1);
    let p3 = p2.push(e2);
    let p4 = p3.push(e3);
    let p5 = p4.push(e4);
    let p6 = p5.push(e5);
    let p7 = p6.push(e6);
    let p8 = p7.push(e7);
    let p9 = p8.push(e8);
    let p10 = p9.push(e9);
    let p11 = p10.push(e10);
    let p12 = p11.push(e11);
    let p13 = p12.push(e12);
    let p14 = p13.push(e13);
    assert(p14 =~= pre + seq![e0, e1, e2, e3, e4, e5, e6, e7, e8, e9, e10, e11, e12, e13]);
    let st = slide_fold(pre, blocks, images)->Ok_0;
    lemma_slide_fold_push(pre, e0, blocks, images);
    let s1 = SlideStateV { is_title_shape: false, ..st };
    assert(slide_start(st, "p:sp"@, Seq::empty(), images) == s1);
    lemma_slide_fold_push(p1, e1, blocks, images);
    assert(slide_start(s1, "p:nvSpPr"@, Seq::empty(), images) == s1);
    lemma_slide_fold_push(p2, e2, blocks, images);
    assert(slide_start(s1, "p:nvPr"@, Seq::empty(), images) == s1);
    lemma_slide_fold_push(p3, e3, blocks, images);
    let title = attr_lookup(ph_attrs, "type"@) == Some("title"@) || attr_lookup(ph_attrs, "type"@) == Some("ctrTitle"@);
    let s4 = SlideStateV { is_title_shape: title, ..s1 };
    assert(slide_empty(s1, "p:ph"@, ph_attrs, images) == s4);
    lemma_slide_fold_push(p4, e4, blocks, images);
    assert(slide_end(s4, "p:nvPr"@) == s4);
    lemma_slide_fold_push(p5, e5, blocks, images);
    assert(slide_end(s4, "p:nvSpPr"@) == s4);
    lemma_slide_fold_push(p6, e6, blocks, images);
    assert(slide_start(s4, "p:txBody"@, Seq::empty(), images) == s4);
    assert(slide_fold(p7, blocks, images) == Ok::<SlideStateV, Seq<char>>(s4));
    lemma_slide_fold_push(p7, e7, blocks, images);
    let s8 = SlideStateV { runs: Seq::empty(), ..s4 };
    assert(slide_start(s4, "a:p"@, Seq::empty(), images) == s8);
    lemma_slide_fold_push(p8, e8, blocks, images);
    assert(slide_start(s8, "a:r"@, Seq::empty(), images) == s8);
    lemma_slide_fold_push(p9, e9, blocks, images);
    let s10 = SlideStateV { in_text: true, ..s8 };
    assert(slide_start(s8, "a:t"@, Seq::empty(), images) == s10);
    assert(slide_fold(p10, blocks, images) == Ok::<SlideStateV, Seq<char>>(s10));
    lemma_slide_fold_push(p10, e10, blocks, images);
    let s11 = slide_text(s10, s);
    assert(slide_fold(p11, blocks, images) == Ok::<SlideStateV, Seq<char>>(s11));
    assert(s11.runs.len() == 1);
    assert(inline_plain(s11.runs[0]) == s) by {
        let t = InlineV::Text(s);
        assert(inline_plain(t) == s);
        let t1 = if s10.italic { InlineV::Italic(Box::new(t)) } else { t };
        if s10.italic {
            assert(inline_plain(InlineV::Italic(Box::new(t))) == inline_plain(t));
        }
        assert(inline_plain(t1) == s);
        let t2 = if s10.bold { InlineV::Bold(Box::new(t1)) } else { t1 };
        if s10.bold {
            assert(inline_plain(InlineV::Bold(Box::new(t1))) == inline_plain(t1));
        }
        assert(inline_plain(t2) == s);
        assert(s11.runs[0] == t2);
    }
    assert(inlines_plain(s11.runs) == s) by {
        assert(s11.runs.drop_last() =~= Seq::<InlineV>::empty());
        assert(inlines_plain(Seq::<InlineV>::empty()) == Seq::<char>::empty());
        assert(s11.runs.last() == s11.runs[0]);
        assert(Seq::<char>::empty() + s =~= s);
    }
    lemma_slide_fold_push(p11, e11, blocks, images);
    let s12 = SlideStateV { in_text: false, ..s11 };
    assert(slide_end(s11, "a:t"@) == s12);
    lemma_slide_fold_push(p12, e12, blocks, images);
    let s13 = SlideStateV { bold: false, italic: false, ..s12 };
    assert(slide_end(s12, "a:r"@) == s13);
    assert(slide_fold(p13, blocks, images) == Ok::<SlideStateV, Seq<char>>(s13));
    lemma_slide_fold_push(p13, e13, blocks, images);
    assert(s13.tables.len() == 0 && s13.is_title_shape == title);
    assert(slide_end(s13, "a:p"@) == slide_paragraph(s13));
}

/// The blocks after a slide's own were added, or the detail of the markup error.
pub open spec fn slide_spec(xml: Seq<char>, blocks: Seq<BlockV>, images: Seq<ImageRefV>) -> Result<Seq<BlockV>, Seq<char>> {
    match slide_fold(xml_read(xml).0, blocks, images) {
        Err(m) => Err(m),
        Ok(st) => match xml_read(xml).1 {
            Some(m) => Err("slide: "@ + m),
            None => Ok(st.blocks),
        },
    }
}

struct SlideState {
    blocks: Vec<Block>,
    is_title_shape: bool,
    runs: Vec<Inline>,
    bold: bool,
    italic: bool,
    in_text: bool,
    in_pic: bool,
    tables: Vec<TableCtx>,
}

spec fn sv(s: SlideState) -> SlideStateV {
    SlideStateV {
        blocks: blocks_view(s.blocks@),
        is_title_shape: s.is_title_shape,
        runs: inlines_view(s.runs@),
        bold: s.bold,
        italic: s.italic,
        in_text: s.in_text,
        in_pic: s.in_pic,
        tables: tables_view(s.tables@),
    }
}

fn is_on_exec(attrs: &Vec<XmlAttr>, key: &str) -> (r: bool)
    ensures
        r == is_on(attrs_view(attrs@), key@),
{
    match attr_val(attrs, key) {
        Some(v) => str_eq(v.as_str(), "1") || str_eq(v.as_str(), "true"),
        None => false,
    }
}

fn push_block(st: &mut SlideState, b: Block)
    ensures
        sv(*final(st)) == (SlideStateV { blocks: sv(*old(st)).blocks.push(b@), ..sv(*old(st)) }),
{
    let ghost before = blocks_view(st.blocks@);
    st.blocks.push(b);
    assert(blocks_view(st.blocks@) =~= before.push(b@));
    assert(sv(*st) =~= SlideStateV { blocks: sv(*old(st)).blocks.push(b@), ..sv(*old(st)) });
}

fn slide_image_exec(st: &mut SlideState, attrs: &Vec<XmlAttr>, images: &Vec<ImageRef>)
    ensures
        sv(*final(st)) == slide_image(sv(*old(st)), attrs_view(attrs@), image_refs_view(images@)),
{
    if !st.in_pic || st.tables.len() > 0 {
        return;
    }
    match attr_val(attrs, "r:embed") {
        None => {},
        Some(rid) => match find_image(images, rid.as_str()) {
            None => {},
            Some((alt, data)) => push_block(st, Block::Image { alt, data }),
        },
    }
}

fn slide_start_exec(st: &mut SlideState, name: &str, attrs: &Vec<XmlAttr>, images: &Vec<ImageRef>)
    ensures
        sv(*final(st)) == slide_start(sv(*old(st)), name@, attrs_view(attrs@), image_refs_view(images@)),
{
    if str_eq(name, "p:sp") {
        st.is_title_shape = false;
    } else if str_eq(name, "p:pic") {
        st.in_pic = true;
    } else if str_eq(name, "a:tbl") {
        let t = new_table_ctx();
        let ghost before = tables_view(st.tables@);
        st.tables.push(t);
        assert(tables_view(st.tables@) =~= before.push(empty_table_ctx()));
    } else if str_eq(name, "a:tr") {
        clear_row(&mut st.tables);
    } else if str_eq(name, "a:tc") {
        clear_cell(&mut st.tables);
    } else if str_eq(name, "a:p") {
        st.runs = Vec::new();
        assert(inlines_view(st.runs@) =~= Seq::<InlineV>::empty());
    } else if str_eq(name, "a:rPr") {
        st.bold = is_on_exec(attrs, "b");
        st.italic = is_on_exec(attrs, "i");
    } else if str_eq(name, "a:t") {
        st.in_text = true;
    } else if str_eq(name, "a:blip") {
        slide_image_exec(st, attrs, images);
    }
    assert(sv(*st) =~= slide_start(sv(*old(st)), name@, attrs_view(attrs@), image_refs_view(images@)));
}

fn slide_empty_exec(st: &mut SlideState, name: &str, attrs: &Vec<XmlAttr>, images: &Vec<ImageRef>)
    ensures
        sv(*final(st)) == slide_empty(sv(*old(st)), name@, attrs_view(attrs@), image_refs_view(images@)),
{
    if str_eq(name, "p:ph") {
        match attr_val(attrs, "type") {
            Some(t) => {
                if str_eq(t.as_str(), "title") || str_eq(t.as_str(), "ctrTitle") {
                    st.is_title_shape = true;
                }
            },
            None => {},
        }
    } else if str_eq(name, "a:rPr") {
        st.bold = is_on_exec(attrs, "b");
        st.italic = is_on_exec(attrs, "i");
    } else if str_eq(name, "a:br") {
        if st.tables.len() > 0 {
            append_cell(&mut st.tables, " ");
        } else {
            let ghost before = inlines_view(st.runs@);
            st.runs.push(Inline::LineBreak);
            assert(inlines_view(st.runs@) =~= before.push(InlineV::LineBreak));
        }
    } else if str_eq(name, "a:blip") {
        slide_image_exec(st, attrs, images);
    }
    assert(sv(*st) =~= slide_empty(sv(*old(st)), name@, attrs_view(attrs@), image_refs_view(images@)));
}

fn slide_paragraph_exec(st: &mut SlideState)
    ensures
        sv(*final(st)) == slide_paragraph(sv(*old(st))),
{
    let mut runs: Vec<Inline> = Vec::new();
    std::mem::swap(&mut runs, &mut st.runs);
    assert(inlines_view(st.runs@) =~= Seq::<InlineV>::empty());
    let plain = plain_text(&runs);
    if !is_blank_str(plain.as_str()) {
        if st.is_title_shape {
            push_block(st, Block::Heading { level: 2, text: plain });
        } else {
            push_block(st, Block::Paragraph(runs));
        }
    }
    assert(sv(*st) =~= slide_paragraph(sv(*old(st))));
}

fn slide_end_exec(st: &mut SlideState, name: &str)
    ensures
        sv(*final(st)) == slide_end(sv(*old(st)), name@),
{
    if str_eq(name, "a:t") {
        st.in_text = false;
    } else if str_eq(name, "a:r") {
        st.bold = false;
        st.italic = false;
    } else if str_eq(name, "p:pic") {
        st.in_pic = false;
    } else if str_eq(name, "a:tc") {
        end_cell(&mut st.tables);
    } else if str_eq(name, "a:tr") {
        end_row(&mut st.tables);
    } else if str_eq(name, "a:tbl") {
        match st.tables.pop() {
            Some(ctx) => {
                assert(tables_view(st.tables@) =~= tables_view(old(st).tables@).drop_last());
                push_block(st, Block::Table(into_table(ctx)));
            },
            None => {},
        }
    } else if str_eq(name, "a:p") {
        if st.tables.len() > 0 {
            para_space(&mut st.tables);
        } else {
            slide_paragraph_exec(st);
        }
    }
    assert(sv(*st) =~= slide_end(sv(*old(st)), name@));
}

fn slide_text_exec(st: &mut SlideState, s: &str)
    ensures
        sv(*final(st)) == slide_text(sv(*old(st)), s@),
{
    if st.tables.len() > 0 {
        append_cell(&mut st.tables, s);
    } else {
        let ghost v0 = InlineV::Text(s@);
        let t0 = Inline::Text(s.to_owned());
        let ghost v1 = if st.italic { InlineV::Italic(Box::new(v0)) } else { v0 };
        let t1 = if st.italic { Inline::Italic(Box::new(t0)) } else { t0 };
        assert(t1@ == v1);
        let t2 = if st.bold { Inline::Bold(Box::new(t1)) } else { t1 };
        let ghost before = inlines_view(st.runs@);
        st.runs.push(t2);
        assert(inlines_view(st.runs@) =~= before.push(t2@));
    }
    assert(sv(*st) =~= slide_text(sv(*old(st)), s@));
}

proof fn lemma_slide_error_stays(evs: Seq<XmlEventV>, blocks: Seq<BlockV>, images: Seq<ImageRefV>, k: int)
    requires
        0 <= k <= evs.len(),
        slide_fold(evs.take(k), blocks, images) is Err,
    ensures
        slide_fold(evs, blocks, images) == slide_fold(evs.take(k), blocks, images),
    decreases evs.len() - k,
{
    if k < evs.len() {
        assert(evs.take(k + 1).drop_last() =~= evs.take(k));
        lemma_slide_error_stays(evs, blocks, images, k + 1);
    } else {
        assert(evs.take(k) =~= evs);
    }
}

/// Adds the blocks of one slide.
fn parse_slide(xml: &str, blocks: &mut Vec<Block>, images: &Vec<ImageRef>) -> (r: Result<(), String>)
    ensures
        match r {
            Ok(_) => slide_spec(xml@, blocks_view(old(blocks)@), image_refs_view(images@)) == Ok::<Seq<BlockV>, Seq<char>>(blocks_view(final(blocks)@)),
            Err(m) => slide_spec(xml@, blocks_view(old(blocks)@), image_refs_view(images@)) == Err::<Seq<BlockV>, Seq<char>>(m@),
        },
{
    let (evs, err) = read_all(xml);
    let ghost ev = events_view(evs@);
    let ghost b0 = blocks_view(blocks@);
    let ghost iv = image_refs_view(images@);
    let mut taken: Vec<Block> = Vec::new();
    std::mem::swap(&mut taken, blocks);
    let mut st = SlideState {
        blocks: taken,
        is_title_shape: false,
        runs: Vec::new(),
        bold: false,
        italic: false,
        in_text: false,
        in_pic: false,
        tables: Vec::new(),
    };
    assert(sv(st) =~= slide_init(b0));
    assert(ev.take(0) =~= Seq::<XmlEventV>::empty());
    let mut i: usize = 0;
    while i < evs.len()
        invariant
            i <= evs@.len(),
            ev == events_view(evs@),
            ev == xml_read(xml@).0,
            iv == image_refs_view(images@),
            b0 == blocks_view(old(blocks)@),
            slide_fold(ev.take(i as int), b0, iv) == Ok::<SlideStateV, Seq<char>>(sv(st)),
        decreases evs@.len() - i,
    {
        assert(ev.take(i + 1).drop_last() =~= ev.take(i as int));
        assert(ev.take(i + 1).last() == event_view(evs@[i as int]));
        match &evs[i] {
            XmlEvent::Start { name, attrs } => slide_start_exec(&mut st, name.as_str(), attrs, images),
            XmlEvent::Empty { name, attrs } => slide_empty_exec(&mut st, name.as_str(), attrs, images),
            XmlEvent::End { name } => slide_end_exec(&mut st, name.as_str()),
            XmlEvent::Text { text } => {
                if st.in_text {
                    match text {
                        Err(m) => {
                            let msg = concat("a:t: ", m.as_str());
                            proof {
                                assert(ev[i as int] == (XmlEventV::Text { text: Err(m@) }));
                                assert(slide_fold(ev.take(i + 1), b0, iv) == Err::<SlideStateV, Seq<char>>(msg@));
                                lemma_slide_error_stays(ev, b0, iv, i + 1);
                            }
                            return Err(msg);
                        },
                        Ok(s) => slide_text_exec(&mut st, s.as_str()),
                    }
                }
            },
            XmlEvent::Other => {},
        }
        i = i + 1;
    }
    assert(ev.take(evs@.len() as int) =~= ev);
    match err {
        Some(m) => Err(concat("slide: ", m.as_str())),
        None => {
            *blocks = st.blocks;
            Ok(())
        },
    }
}

/// The blocks of the first `k` slides, with a page break between slides.
pub open spec fn pptx_slides(es: Seq<(Seq<char>, Seq<u8>)>, names: Seq<Seq<char>>, k: nat) -> Result<Seq<BlockV>, ParseErrorV>
    decreases k,
{
    if k == 0 {
        Ok(Seq::empty())
    } else {
        match pptx_slides(es, names, (k - 1) as nat) {
            Err(e) => Err(e),
            Ok(blocks) => {
                let name = names[k - 1];
                let b1 = if k - 1 > 0 { blocks.push(BlockV::PageBreak) } else { blocks };
                match get_str_spec(es, name, "pptx"@) {
                    Err(e) => Err(e),
                    Ok(None) => Err(container_error("pptx"@, "missing "@ + name)),
                    Ok(Some(x)) => match image_rels_spec(es, name, "pptx"@) {
                        Err(e) => Err(e),
                        Ok(images) => match slide_spec(x, b1, images) {
                            Err(m) => Err(markup_error("pptx"@, m)),
                            Ok(b2) => Ok(b2),
                        },
                    },
                }
            },
        }
    }
}

/// The slide parts in natural order.
pub open spec fn slide_names(es: Seq<(Seq<char>, Seq<u8>)>) -> Seq<Seq<char>> {
    natural_sort(matching_names(es, "ppt/slides/slide"@, ".xml"@))
}

/// What parsing a PPTX file gives.
pub open spec fn pptx_parse_spec(input: Seq<u8>, filename: Seq<char>) -> Result<DocumentV, ParseErrorV> {
    match package_spec(input) {
        Err(m) => Err(container_error("pptx"@, m)),
        Ok(es) => {
            let names = slide_names(es);
            match pptx_slides(es, names, names.len()) {
                Err(e) => Err(e),
                Ok(blocks) => Ok(DocumentV {
                    metadata: MetadataV {
                        title: None,
                        author: None,
                        created_at: None,
                        source_format: SourceFormat::Pptx,
                        original_filename: filename,
                        page_count: Some(names.len() as usize),
                        language: None,
                    },
                    blocks,
                }),
            }
        },
    }
}

proof fn lemma_slides_error_stays(es: Seq<(Seq<char>, Seq<u8>)>, names: Seq<Seq<char>>, k: nat, n: nat)
    requires
        k <= n,
        pptx_slides(es, names, k) is Err,
    ensures
        pptx_slides(es, names, n) == pptx_slides(es, names, k),
    decreases n - k,
{
    if k < n {
        lemma_slides_error_stays(es, names, k, (n - 1) as nat);
    }
}

/// PowerPoint presentations (`.pptx`).
pub struct PptxParser;

impl FormatParser for PptxParser {
    open spec fn spec_name(&self) -> Seq<char> {
        "pptx"@
    }

    open spec fn spec_extensions(&self) -> Seq<Seq<char>> {
        seq!["pptx"@]
    }

    open spec fn spec_accepts(&self, header: Seq<u8>) -> bool {
        zip_magic(header)
    }

    open spec fn spec_parse(&self, input: Seq<u8>, filename: Seq<char>) -> Result<DocumentV, ParseErrorV> {
        pptx_parse_spec(input, filename)
    }

    fn supported_extensions(&self) -> (r: &[&'static str]) {
        let r: &[&'static str] = &["pptx"];
        assert(r@.map_values(|s: &str| s@) =~= seq!["pptx"@]);
        r
    }

    fn can_parse_bytes(&self, header: &[u8]) -> (r: bool) {
        is_zip_magic(header)
    }

    fn name(&self) -> (r: &'static str) {
        "pptx"
    }

    fn parse(&self, input: &[u8], filename: &str) -> (r: Result<Document, ParseError>) {
        let pkg = match OoxmlPackage::from_reader(input, "pptx") {
            Ok(p) => p,
            Err(e) => return Err(e),
        };
        let slides = pkg.names_matching("ppt/slides/slide", ".xml");
        let ghost es = pkg@;
        let ghost names = slides@.map_values(|s: String| s@);
        let mut metadata = DocumentMetadata::new(SourceFormat::Pptx, filename);
        metadata.page_count = Some(slides.len());
        let mut blocks: Vec<Block> = Vec::new();
        let mut i: usize = 0;
        assert(blocks_view(blocks@) =~= Seq::<BlockV>::empty());
        while i < slides.len()
            invariant
                i <= slides@.len(),
                es == pkg@,
                package_spec(input@) == Ok::<Seq<(Seq<char>, Seq<u8>)>, Seq<char>>(es),
                metadata@ == (MetadataV {
                    title: None,
                    author: None,
                    created_at: None,
                    source_format: SourceFormat::Pptx,
                    original_filename: filename@,
                    page_count: Some(names.len() as usize),
                    language: None,
                }),
                names == slides@.map_values(|s: String| s@),
                names == slide_names(es),
                pptx_slides(es, names, i as nat) == Ok::<Seq<BlockV>, ParseErrorV>(blocks_view(blocks@)),
            decreases slides@.len() - i,
        {
            let slide = &slides[i];
            assert(names[i as int] == slide@);
            if i > 0 {
                let ghost before = blocks_view(blocks@);
                blocks.push(Block::PageBreak);
                assert(blocks_view(blocks@) =~= before.push(BlockV::PageBreak));
            }
            let xml = match pkg.get_str(slide.as_str(), "pptx") {
                Err(e) => {
                    proof {
                        lemma_slides_error_stays(es, names, (i + 1) as nat, names.len());
                    }
                    return Err(e);
                },
                Ok(None) => {
                    proof {
                        lemma_slides_error_stays(es, names, (i + 1) as nat, names.len());
                    }
                    return Err(ParseError::container("pptx", concat("missing ", slide.as_str())));
                },
                Ok(Some(x)) => x,
            };
            let images = match pkg.image_rels(slide.as_str(), "pptx") {
                Ok(v) => v,
                Err(e) => {
                    proof {
                        lemma_slides_error_stays(es, names, (i + 1) as nat, names.len());
                    }
                    return Err(e);
                },
            };
            match parse_slide(xml.as_str(), &mut blocks, &images) {
                Ok(()) => {},
                Err(m) => {
                    proof {
                        lemma_slides_error_stays(es, names, (i + 1) as nat, names.len());
                    }
                    return Err(ParseError::markup("pptx", m));
                },
            }
            i = i + 1;
        }
        Ok(Document { metadata, blocks })
    }
}

} // verus!
