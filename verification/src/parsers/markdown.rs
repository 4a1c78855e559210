//! Markdown: pulldown-cmark events (tables, strikethrough and task lists on)
//! turned into the IR, so that Markdown input is renormalised like every
//! other format (heading levels, tables, whitespace).

use vstd::prelude::*;
use crate::parsers::md_source::{
    md_at, md_code_info, md_dest_url, md_event_kind, md_heading_level, md_inline_tag, md_list_ordered, md_ok,
    md_parse, md_structure_tag, md_table_tag, md_task_checked, md_text, MdEvents,
};
use crate::error::{encoding_error, ParseError, ParseErrorV};
use crate::ir::{
    blocks_view, inlines_view, list_items_view, nested_list_view, Block, BlockV, Document,
    DocumentMetadata, DocumentV, ImageData, ImageDataV, Inline, InlineV, ListItem, ListItemV,
    MetadataV, NestedList, NestedListV, SourceFormat, Table, TableV,
};
use crate::parsers::common::{append_inline_plain, inline_plain, inlines_plain, plain_text};
use crate::parsers::docx::styled;
use crate::strs::{trim, trim_end_char, trim_end_char_len, trim_string};
use crate::text::{
    chars_of, collapse, collapse_ws, has_prefix, is_blank, is_blank_str, is_whitespace, is_ws,
    lemma_utf8_bom_prefix, starts_with_str, string_of, strip_bom, strip_bom_str, sub_chars, utf8_bom, utf8_decode,
    utf8_error_message,
};
use crate::registry::{parse_result_view, FormatParser};
use vstd::utf8::{decode_utf8, valid_utf8};

verus! {

#[verifier::external_type_specification]
#[verifier::external_body]
pub struct ExMdEvent<'a>(pulldown_cmark::Event<'a>);

/// The kind of a start or end tag.
#[derive(Debug, Clone, Copy, PartialEq, Eq, Structural)]
pub enum MdTagKind {
    Heading,
    Paragraph,
    BlockQuote,
    CodeBlock,
    List,
    Item,
    Table,
    TableHead,
    TableRow,
    TableCell,
    Emphasis,
    Strong,
    Strikethrough,
    Link,
    Image,
    Other,
}

/// A tag that carries nothing the conversion reads.
#[derive(Debug, Clone, Copy, PartialEq, Eq, Structural)]
pub enum MdPlainTag {
    Paragraph,
    BlockQuote,
    Item,
    Table,
    TableHead,
    TableRow,
    TableCell,
    Emphasis,
    Strong,
    Strikethrough,
    Other,
}

pub open spec fn plain_kind(t: MdPlainTag) -> MdTagKind {
    match t {
        MdPlainTag::Paragraph => MdTagKind::Paragraph,
        MdPlainTag::BlockQuote => MdTagKind::BlockQuote,
        MdPlainTag::Item => MdTagKind::Item,
        MdPlainTag::Table => MdTagKind::Table,
        MdPlainTag::TableHead => MdTagKind::TableHead,
        MdPlainTag::TableRow => MdTagKind::TableRow,
        MdPlainTag::TableCell => MdTagKind::TableCell,
        MdPlainTag::Emphasis => MdTagKind::Emphasis,
        MdPlainTag::Strong => MdTagKind::Strong,
        MdPlainTag::Strikethrough => MdTagKind::Strikethrough,
        MdPlainTag::Other => MdTagKind::Other,
    }
}

fn plain_tag_of(k: MdTagKind) -> (t: MdPlainTag)
    requires
        k != MdTagKind::Heading && k != MdTagKind::CodeBlock && k != MdTagKind::List && k != MdTagKind::Link
            && k != MdTagKind::Image,
    ensures
        plain_kind(t) == k,
{
    match k {
        MdTagKind::Paragraph => MdPlainTag::Paragraph,
        MdTagKind::BlockQuote => MdPlainTag::BlockQuote,
        MdTagKind::Item => MdPlainTag::Item,
        MdTagKind::Table => MdPlainTag::Table,
        MdTagKind::TableHead => MdPlainTag::TableHead,
        MdTagKind::TableRow => MdPlainTag::TableRow,
        MdTagKind::TableCell => MdPlainTag::TableCell,
        MdTagKind::Emphasis => MdPlainTag::Emphasis,
        MdTagKind::Strong => MdPlainTag::Strong,
        MdTagKind::Strikethrough => MdPlainTag::Strikethrough,
        _ => MdPlainTag::Other,
    }
}

/// A start tag with what the conversion reads of it.
pub enum MdTagV {
    Heading(u8),
    CodeBlock(Option<Seq<char>>),
    List(bool),
    Link(Seq<char>),
    Image(Seq<char>),
    Plain(MdPlainTag),
}

/// A pulldown-cmark event with what the conversion reads of it.
pub enum MdEventV {
    Start(MdTagV),
    End(MdTagKind),
    Text(Seq<char>),
    Code(Seq<char>),
    SoftBreak,
    HardBreak,
    Rule,
    TaskListMarker(bool),
    Other,
}

/// The events `pulldown_cmark::Parser::new_ext` yields for the text with
/// tables, strikethrough and task lists enabled.  A heading start carries its
/// level, a code block start the info string of a fenced block (`None` when
/// indented), a list start whether it is ordered, link and image starts their
/// destination; other tags only their kind; text and inline code their text.
pub uninterp spec fn md_events(text: Seq<char>) -> Seq<MdEventV>;

pub open spec fn start_kind(t: MdTagV) -> MdTagKind {
    match t {
        MdTagV::Heading(_) => MdTagKind::Heading,
        MdTagV::CodeBlock(_) => MdTagKind::CodeBlock,
        MdTagV::List(_) => MdTagKind::List,
        MdTagV::Link(_) => MdTagKind::Link,
        MdTagV::Image(_) => MdTagKind::Image,
        MdTagV::Plain(t) => plain_kind(t),
    }
}

/// The tag kind of a start or end event.
pub open spec fn event_tag_kind(e: MdEventV) -> MdTagKind {
    match e {
        MdEventV::Start(t) => start_kind(t),
        MdEventV::End(k) => k,
        _ => MdTagKind::Other,
    }
}

pub open spec fn is_structure_kind(k: MdTagKind) -> bool {
    k == MdTagKind::Heading || k == MdTagKind::Paragraph || k == MdTagKind::BlockQuote
        || k == MdTagKind::CodeBlock || k == MdTagKind::List || k == MdTagKind::Item
}

pub open spec fn is_table_kind(k: MdTagKind) -> bool {
    k == MdTagKind::Table || k == MdTagKind::TableHead || k == MdTagKind::TableRow || k == MdTagKind::TableCell
}

/// What kind of event an event is.
#[derive(Debug, Clone, Copy, PartialEq, Eq, Structural)]
pub enum MdEventKind {
    Start,
    End,
    Text,
    Code,
    SoftBreak,
    HardBreak,
    Rule,
    TaskListMarker,
    Other,
}

pub open spec fn md_event_kind_of(e: MdEventV) -> MdEventKind {
    match e {
        MdEventV::Start(_) => MdEventKind::Start,
        MdEventV::End(_) => MdEventKind::End,
        MdEventV::Text(_) => MdEventKind::Text,
        MdEventV::Code(_) => MdEventKind::Code,
        MdEventV::SoftBreak => MdEventKind::SoftBreak,
        MdEventV::HardBreak => MdEventKind::HardBreak,
        MdEventV::Rule => MdEventKind::Rule,
        MdEventV::TaskListMarker(_) => MdEventKind::TaskListMarker,
        MdEventV::Other => MdEventKind::Other,
    }
}

/// An event as plain values.
pub enum MdEvent {
    Start(MdTag),
    End(MdTagKind),
    Text(String),
    Code(String),
    SoftBreak,
    HardBreak,
    Rule,
    TaskListMarker(bool),
    Other,
}

pub enum MdTag {
    Heading(u8),
    CodeBlock(Option<String>),
    List(bool),
    Link(String),
    Image(String),
    Plain(MdPlainTag),
}

pub open spec fn md_tag_view(t: MdTag) -> MdTagV {
    match t {
        MdTag::Heading(l) => MdTagV::Heading(l),
        MdTag::CodeBlock(i) => MdTagV::CodeBlock(crate::ir::opt_str_view(i)),
        MdTag::List(o) => MdTagV::List(o),
        MdTag::Link(u) => MdTagV::Link(u@),
        MdTag::Image(u) => MdTagV::Image(u@),
        MdTag::Plain(k) => MdTagV::Plain(k),
    }
}

pub open spec fn md_event_view(e: MdEvent) -> MdEventV {
    match e {
        MdEvent::Start(t) => MdEventV::Start(md_tag_view(t)),
        MdEvent::End(k) => MdEventV::End(k),
        MdEvent::Text(s) => MdEventV::Text(s@),
        MdEvent::Code(s) => MdEventV::Code(s@),
        MdEvent::SoftBreak => MdEventV::SoftBreak,
        MdEvent::HardBreak => MdEventV::HardBreak,
        MdEvent::Rule => MdEventV::Rule,
        MdEvent::TaskListMarker(c) => MdEventV::TaskListMarker(c),
        MdEvent::Other => MdEventV::Other,
    }
}

pub open spec fn md_events_view(s: Seq<MdEvent>) -> Seq<MdEventV> {
    s.map_values(|e: MdEvent| md_event_view(e))
}

/// The kind of the tag of event `i`.
fn tag_kind_at(m: &MdEvents, i: usize) -> (r: MdTagKind)
    requires
        md_ok(m, i as int),
    ensures
        r == event_tag_kind(md_at(m, i as int)),
{
    let a = md_structure_tag(m, i);
    if a != MdTagKind::Other {
        return a;
    }
    let b = md_table_tag(m, i);
    if b != MdTagKind::Other {
        return b;
    }
    md_inline_tag(m, i)
}

/// The events of a Markdown text as plain values.
pub fn markdown_events(text: &str) -> (r: Vec<MdEvent>)
    ensures
        md_events_view(r@) == md_events(text@),
{
    let m = md_parse(text);
    let ghost all = md_events(text@);
    let mut out: Vec<MdEvent> = Vec::new();
    let mut i: usize = 0;
    while i < m.count()
        invariant
            i <= m.len(),
            m.src() == text@,
            all == md_events(text@),
            m.len() == all.len(),
            md_events_view(out@) == all.take(i as int),
        decreases m.len() - i,
    {
        let ev = match md_event_kind(&m, i) {
            MdEventKind::Start => {
                let k = tag_kind_at(&m, i);
                let t = match k {
                    MdTagKind::Heading => MdTag::Heading(md_heading_level(&m, i)),
                    MdTagKind::CodeBlock => MdTag::CodeBlock(md_code_info(&m, i)),
                    MdTagKind::List => MdTag::List(md_list_ordered(&m, i)),
                    MdTagKind::Link => MdTag::Link(md_dest_url(&m, i)),
                    MdTagKind::Image => MdTag::Image(md_dest_url(&m, i)),
                    _ => MdTag::Plain(plain_tag_of(k)),
                };
                MdEvent::Start(t)
            },
            MdEventKind::End => MdEvent::End(tag_kind_at(&m, i)),
            MdEventKind::Text => MdEvent::Text(md_text(&m, i)),
            MdEventKind::Code => MdEvent::Code(md_text(&m, i)),
            MdEventKind::SoftBreak => MdEvent::SoftBreak,
            MdEventKind::HardBreak => MdEvent::HardBreak,
            MdEventKind::Rule => MdEvent::Rule,
            MdEventKind::TaskListMarker => MdEvent::TaskListMarker(md_task_checked(&m, i)),
            MdEventKind::Other => MdEvent::Other,
        };
        assert(md_event_view(ev) == all[i as int]);
        let ghost before = out@;
        out.push(ev);
        assert(md_events_view(out@) =~= md_events_view(before).push(md_event_view(ev)));
        assert(all.take(i + 1) =~= all.take(i as int).push(all[i as int]));
        i = i + 1;
    }
    assert(all.take(m.len() as int) =~= all);
    out
}


// ── the conversion state ────────────────────────────────────────

/// A list being built.
pub struct ListBuildV {
    pub ordered: bool,
    pub items: Seq<ListItemV>,
    pub cur: Seq<InlineV>,
    pub cur_sublist: Option<NestedListV>,
}

/// A table being built.
pub struct TableBuildV {
    pub headers: Seq<Seq<char>>,
    pub rows: Seq<Seq<Seq<char>>>,
    pub cur_row: Seq<Seq<char>>,
    pub cell: Seq<char>,
    pub in_head: bool,
}

#[verifier::ext_equal]
pub struct MdStateV {
    pub blocks: Seq<BlockV>,
    pub inline: Seq<InlineV>,
    pub bold: u32,
    pub italic: u32,
    pub strike: u32,
    pub heading: Option<u8>,
    pub in_quote: bool,
    pub code: Option<(Option<Seq<char>>, Seq<char>)>,
    pub link: Option<(Seq<char>, Seq<char>)>,
    pub image: Option<(Seq<char>, Seq<char>)>,
    pub lists: Seq<ListBuildV>,
    pub table: Option<TableBuildV>,
}

pub open spec fn md_init() -> MdStateV {
    MdStateV {
        blocks: Seq::empty(),
        inline: Seq::empty(),
        bold: 0,
        italic: 0,
        strike: 0,
        heading: None,
        in_quote: false,
        code: None,
        link: None,
        image: None,
        lists: Seq::empty(),
        table: None,
    }
}

pub open spec fn inc(x: u32) -> u32 {
    if x == u32::MAX { x } else { (x + 1) as u32 }
}

pub open spec fn dec(x: u32) -> u32 {
    if x == 0 { 0 } else { (x - 1) as u32 }
}

pub open spec fn with_last_list(ls: Seq<ListBuildV>, l: ListBuildV) -> Seq<ListBuildV> {
    ls.update(ls.len() - 1, l)
}

/// An inline goes to the table cell (as plain text), to the current list
/// item, or to the paragraph being gathered.
pub open spec fn md_push_inline(st: MdStateV, inl: InlineV) -> MdStateV {
    match st.table {
        Some(t) => MdStateV { table: Some(TableBuildV { cell: t.cell + inline_plain(inl), ..t }), ..st },
        None => if st.lists.len() > 0 {
            MdStateV { lists: with_last_list(st.lists, ListBuildV { cur: st.lists.last().cur.push(inl), ..st.lists.last() }), ..st }
        } else {
            MdStateV { inline: st.inline.push(inl), ..st }
        },
    }
}

/// Text goes into an open code block, link text or image alt text, else it
/// is a run with the current bold / italic / strike.
pub open spec fn md_add_text(st: MdStateV, s: Seq<char>) -> MdStateV {
    match st.code {
        Some(c) => MdStateV { code: Some((c.0, c.1 + s)), ..st },
        None => match st.link {
            Some(l) => MdStateV { link: Some((l.0, l.1 + s)), ..st },
            None => match st.image {
                Some(im) => MdStateV { image: Some((im.0, im.1 + s)), ..st },
                None => md_push_inline(st, styled(s, st.bold > 0, st.italic > 0, st.strike > 0)),
            },
        },
    }
}

/// The gathered runs become a paragraph (unless a heading, a code block or a
/// quote is open; blank runs are dropped).
pub open spec fn md_flush(st: MdStateV) -> MdStateV {
    if st.heading is Some || st.code is Some || st.in_quote {
        st
    } else {
        let s0 = MdStateV { inline: Seq::empty(), ..st };
        if !is_blank(inlines_plain(st.inline)) {
            MdStateV { blocks: s0.blocks.push(BlockV::Paragraph(st.inline)), ..s0 }
        } else {
            s0
        }
    }
}

/// `s` without leading whitespace.
pub open spec fn skip_ws(s: Seq<char>) -> Seq<char>
    decreases s.len(),
{
    if s.len() > 0 && is_ws(s[0]) { skip_ws(s.drop_first()) } else { s }
}

/// The characters of `s` up to the first whitespace.
pub open spec fn take_word(s: Seq<char>) -> Seq<char>
    decreases s.len(),
{
    if s.len() == 0 || is_ws(s[0]) { Seq::empty() } else { seq![s[0]] + take_word(s.drop_first()) }
}

/// The language of a fenced code block: the first word of its info string.
pub open spec fn code_lang(info: Option<Seq<char>>) -> Option<Seq<char>> {
    match info {
        Some(i) => {
            let w = take_word(skip_ws(i));
            if w.len() == 0 { None } else { Some(w) }
        },
        None => None,
    }
}

pub open spec fn empty_table_build() -> TableBuildV {
    TableBuildV { headers: Seq::empty(), rows: Seq::empty(), cur_row: Seq::empty(), cell: Seq::empty(), in_head: false }
}

pub open spec fn md_start(st: MdStateV, t: MdTagV) -> MdStateV {
    match t {
        MdTagV::Heading(level) => {
            let f = md_flush(st);
            MdStateV { inline: Seq::empty(), heading: Some(level), ..f }
        },
        MdTagV::CodeBlock(info) => {
            let f = md_flush(st);
            MdStateV { code: Some((code_lang(info), Seq::empty())), ..f }
        },
        MdTagV::List(ordered) => {
            let f = md_flush(st);
            MdStateV {
                lists: f.lists.push(ListBuildV { ordered, items: Seq::empty(), cur: Seq::empty(), cur_sublist: None }),
                ..f
            }
        },
        MdTagV::Link(u) => MdStateV { link: Some((u, Seq::empty())), ..st },
        MdTagV::Image(u) => MdStateV { image: Some((u, Seq::empty())), ..st },
        MdTagV::Plain(p) => match p {
            MdPlainTag::BlockQuote => {
                let f = md_flush(st);
                MdStateV { in_quote: true, ..f }
            },
            MdPlainTag::Item => if st.lists.len() > 0 {
                MdStateV {
                    lists: with_last_list(st.lists, ListBuildV { cur: Seq::empty(), cur_sublist: None, ..st.lists.last() }),
                    ..st
                }
            } else {
                st
            },
            MdPlainTag::Emphasis => MdStateV { italic: inc(st.italic), ..st },
            MdPlainTag::Strong => MdStateV { bold: inc(st.bold), ..st },
            MdPlainTag::Strikethrough => MdStateV { strike: inc(st.strike), ..st },
            MdPlainTag::Table => MdStateV { table: Some(empty_table_build()), ..st },
            MdPlainTag::TableHead => match st.table {
                Some(tb) => MdStateV { table: Some(TableBuildV { in_head: true, cur_row: Seq::empty(), ..tb }), ..st },
                None => st,
            },
            MdPlainTag::TableRow => match st.table {
                Some(tb) => MdStateV { table: Some(TableBuildV { cur_row: Seq::empty(), ..tb }), ..st },
                None => st,
            },
            MdPlainTag::TableCell => match st.table {
                Some(tb) => MdStateV { table: Some(TableBuildV { cell: Seq::empty(), ..tb }), ..st },
                None => st,
            },
            _ => st,
        },
    }
}

/// An image's destination: a URL when it starts with `http://` or `https://`, else a path.
pub open spec fn image_target(url: Seq<char>) -> ImageDataV {
    if has_prefix(url, "http://"@) || has_prefix(url, "https://"@) {
        ImageDataV::Url(url)
    } else {
        ImageDataV::Path(url)
    }
}

pub open spec fn md_end_list(st: MdStateV) -> MdStateV {
    if st.lists.len() == 0 {
        st
    } else {
        let lb = st.lists.last();
        let rest = st.lists.drop_last();
        if rest.len() > 0 {
            MdStateV {
                lists: with_last_list(rest, ListBuildV { cur_sublist: Some(NestedListV { ordered: lb.ordered, items: lb.items }), ..rest.last() }),
                ..st
            }
        } else if lb.items.len() > 0 {
            MdStateV { lists: rest, blocks: st.blocks.push(BlockV::List { ordered: lb.ordered, items: lb.items }), ..st }
        } else {
            MdStateV { lists: rest, ..st }
        }
    }
}

pub open spec fn md_end_item(st: MdStateV) -> MdStateV {
    if st.lists.len() == 0 {
        st
    } else {
        let lb = st.lists.last();
        let items = if !is_blank(inlines_plain(lb.cur)) || lb.cur_sublist is Some {
            lb.items.push(ListItemV { content: lb.cur, sublist: lb.cur_sublist })
        } else {
            lb.items
        };
        MdStateV { lists: with_last_list(st.lists, ListBuildV { ordered: lb.ordered, items, cur: Seq::empty(), cur_sublist: None }), ..st }
    }
}

pub open spec fn md_end(st: MdStateV, k: MdTagKind) -> MdStateV {
    match k {
        MdTagKind::Heading => {
            let text = collapse(inlines_plain(st.inline));
            let level = match st.heading {
                Some(l) => l,
                None => 1u8,
            };
            let blocks = if text.len() > 0 { st.blocks.push(BlockV::Heading { level, text }) } else { st.blocks };
            MdStateV { blocks, heading: None, inline: Seq::empty(), ..st }
        },
        MdTagKind::Paragraph => if st.lists.len() > 0 {
            if st.lists.last().cur.len() > 0 {
                MdStateV {
                    lists: with_last_list(st.lists, ListBuildV { cur: st.lists.last().cur.push(InlineV::Text(" "@)), ..st.lists.last() }),
                    ..st
                }
            } else {
                st
            }
        } else if st.in_quote {
            if st.inline.len() > 0 { MdStateV { inline: st.inline.push(InlineV::Text(" "@)), ..st } } else { st }
        } else {
            md_flush(st)
        },
        MdTagKind::BlockQuote => {
            let s0 = MdStateV { in_quote: false, inline: Seq::empty(), ..st };
            if !is_blank(inlines_plain(st.inline)) {
                MdStateV { blocks: s0.blocks.push(BlockV::Quote(st.inline)), ..s0 }
            } else {
                s0
            }
        },
        MdTagKind::CodeBlock => match st.code {
            Some(c) => MdStateV {
                code: None,
                blocks: st.blocks.push(BlockV::CodeBlock { lang: c.0, code: trim_end_char(c.1, '\n') }),
                ..st
            },
            None => st,
        },
        MdTagKind::List => md_end_list(st),
        MdTagKind::Item => md_end_item(st),
        MdTagKind::Emphasis => MdStateV { italic: dec(st.italic), ..st },
        MdTagKind::Strong => MdStateV { bold: dec(st.bold), ..st },
        MdTagKind::Strikethrough => MdStateV { strike: dec(st.strike), ..st },
        MdTagKind::Link => match st.link {
            Some(l) => {
                let t = trim(l.1);
                let s0 = MdStateV { link: None, ..st };
                if t.len() > 0 { md_push_inline(s0, InlineV::Link { text: t, url: l.0 }) } else { s0 }
            },
            None => st,
        },
        MdTagKind::Image => match st.image {
            Some(im) => {
                let s0 = MdStateV { image: None, ..st };
                match s0.table {
                    Some(tb) => MdStateV { table: Some(TableBuildV { cell: tb.cell + im.1, ..tb }), ..s0 },
                    None => {
                        let f = md_flush(s0);
                        MdStateV { blocks: f.blocks.push(BlockV::Image { alt: im.1, data: image_target(im.0) }), ..f }
                    },
                }
            },
            None => st,
        },
        MdTagKind::TableCell => match st.table {
            Some(tb) => MdStateV { table: Some(TableBuildV { cur_row: tb.cur_row.push(collapse(tb.cell)), cell: Seq::empty(), ..tb }), ..st },
            None => st,
        },
        MdTagKind::TableHead => match st.table {
            Some(tb) => MdStateV { table: Some(TableBuildV { headers: tb.cur_row, cur_row: Seq::empty(), in_head: false, ..tb }), ..st },
            None => st,
        },
        MdTagKind::TableRow => match st.table {
            Some(tb) => if !tb.in_head {
                MdStateV { table: Some(TableBuildV { rows: tb.rows.push(tb.cur_row), cur_row: Seq::empty(), ..tb }), ..st }
            } else {
                st
            },
            None => st,
        },
        MdTagKind::Table => match st.table {
            Some(tb) => MdStateV {
                table: None,
                blocks: st.blocks.push(BlockV::Table(TableV { headers: tb.headers, rows: tb.rows, caption: None })),
                ..st
            },
            None => st,
        },
        MdTagKind::Other => st,
    }
}

pub open spec fn md_step(st: MdStateV, ev: MdEventV) -> MdStateV {
    match ev {
        MdEventV::Start(t) => md_start(st, t),
        MdEventV::End(k) => md_end(st, k),
        MdEventV::Text(s) => md_add_text(st, s),
        MdEventV::Code(s) => if st.link is Some || st.image is Some {
            md_add_text(st, s)
        } else {
            md_push_inline(st, InlineV::Code(s))
        },
        MdEventV::SoftBreak => md_add_text(st, " "@),
        MdEventV::HardBreak => md_push_inline(st, InlineV::LineBreak),
        MdEventV::Rule => {
            let f = md_flush(st);
            MdStateV { blocks: f.blocks.push(BlockV::HorizontalRule), ..f }
        },
        MdEventV::TaskListMarker(c) => md_push_inline(st, InlineV::Text(if c { "[x] "@ } else { "[ ] "@ })),
        MdEventV::Other => st,
    }
}

pub open spec fn md_fold(evs: Seq<MdEventV>) -> MdStateV
    decreases evs.len(),
{
    if evs.len() == 0 {
        md_init()
    } else {
        md_step(md_fold(evs.drop_last()), evs.last())
    }
}

/// The blocks of a Markdown text.
pub open spec fn markdown_blocks(text: Seq<char>) -> Seq<BlockV> {
    md_flush(md_fold(md_events(text))).blocks
}

// ── the conversion, computed ────────────────────────────────────

struct ListBuild {
    ordered: bool,
    items: Vec<ListItem>,
    cur: Vec<Inline>,
    cur_sublist: Option<Box<NestedList>>,
}

struct TableBuild {
    headers: Vec<String>,
    rows: Vec<Vec<String>>,
    cur_row: Vec<String>,
    cell: String,
    in_head: bool,
}

struct MdState {
    blocks: Vec<Block>,
    inline: Vec<Inline>,
    bold: u32,
    italic: u32,
    strike: u32,
    heading: Option<u8>,
    in_quote: bool,
    code: Option<(Option<String>, String)>,
    link: Option<(String, String)>,
    image: Option<(String, String)>,
    lists: Vec<ListBuild>,
    table: Option<TableBuild>,
}

spec fn list_build_view(l: ListBuild) -> ListBuildV {
    ListBuildV {
        ordered: l.ordered,
        items: list_items_view(l.items@),
        cur: inlines_view(l.cur@),
        cur_sublist: match l.cur_sublist {
            Some(b) => Some(nested_list_view(*b)),
            None => None,
        },
    }
}

spec fn lists_view(s: Seq<ListBuild>) -> Seq<ListBuildV> {
    s.map_values(|l: ListBuild| list_build_view(l))
}

spec fn table_build_view(t: TableBuild) -> TableBuildV {
    TableBuildV {
        headers: t.headers.deep_view(),
        rows: t.rows.deep_view(),
        cur_row: t.cur_row.deep_view(),
        cell: t.cell@,
        in_head: t.in_head,
    }
}

spec fn pair_view(o: Option<(String, String)>) -> Option<(Seq<char>, Seq<char>)> {
    match o {
        Some(p) => Some((p.0@, p.1@)),
        None => None,
    }
}

spec fn code_view(o: Option<(Option<String>, String)>) -> Option<(Option<Seq<char>>, Seq<char>)> {
    match o {
        Some(p) => Some((crate::ir::opt_str_view(p.0), p.1@)),
        None => None,
    }
}

spec fn mv(s: MdState) -> MdStateV {
    MdStateV {
        blocks: blocks_view(s.blocks@),
        inline: inlines_view(s.inline@),
        bold: s.bold,
        italic: s.italic,
        strike: s.strike,
        heading: s.heading,
        in_quote: s.in_quote,
        code: code_view(s.code),
        link: pair_view(s.link),
        image: pair_view(s.image),
        lists: lists_view(s.lists@),
        table: match s.table {
            Some(t) => Some(table_build_view(t)),
            None => None,
        },
    }
}

fn take_last_list(ls: &mut Vec<ListBuild>) -> (l: ListBuild)
    requires
        old(ls)@.len() > 0,
    ensures
        final(ls)@ == old(ls)@.drop_last(),
        l == old(ls)@.last(),
{
    match ls.pop() {
        Some(l) => l,
        None => {
            assert(false);
            ListBuild { ordered: false, items: Vec::new(), cur: Vec::new(), cur_sublist: None }
        },
    }
}

proof fn lemma_put_back_list(old_ls: Seq<ListBuild>, l: ListBuild)
    requires
        old_ls.len() > 0,
    ensures
        lists_view(old_ls.drop_last().push(l)) == with_last_list(lists_view(old_ls), list_build_view(l)),
{
    assert(lists_view(old_ls.drop_last().push(l)) =~= with_last_list(lists_view(old_ls), list_build_view(l)));
}

fn push_block(st: &mut MdState, b: Block)
    ensures
        mv(*final(st)) == (MdStateV { blocks: mv(*old(st)).blocks.push(b@), ..mv(*old(st)) }),
{
    let ghost before = blocks_view(st.blocks@);
    st.blocks.push(b);
    assert(blocks_view(st.blocks@) =~= before.push(b@));
    assert(mv(*st) =~= MdStateV { blocks: mv(*old(st)).blocks.push(b@), ..mv(*old(st)) });
}

fn push_inline(st: &mut MdState, inl: Inline)
    ensures
        mv(*final(st)) == md_push_inline(mv(*old(st)), inl@),
{
    match st.table.take() {
        Some(mut t) => {
            append_inline_plain(&inl, &mut t.cell);
            st.table = Some(t);
            assert(mv(*st) =~= md_push_inline(mv(*old(st)), inl@));
        },
        None => {
            if st.lists.len() > 0 {
                let mut lb = take_last_list(&mut st.lists);
                let ghost before = inlines_view(lb.cur@);
                lb.cur.push(inl);
                assert(inlines_view(lb.cur@) =~= before.push(inl@));
                st.lists.push(lb);
                proof {
                    lemma_put_back_list(old(st).lists@, lb);
                }
            } else {
                let ghost before = inlines_view(st.inline@);
                st.inline.push(inl);
                assert(inlines_view(st.inline@) =~= before.push(inl@));
            }
            assert(mv(*st) =~= md_push_inline(mv(*old(st)), inl@));
        },
    }
}

fn add_text(st: &mut MdState, s: &str)
    ensures
        mv(*final(st)) == md_add_text(mv(*old(st)), s@),
{
    match st.code.take() {
        Some((l, mut b)) => {
            b.append(s);
            st.code = Some((l, b));
            assert(mv(*st) =~= md_add_text(mv(*old(st)), s@));
            return;
        },
        None => {},
    }
    match st.link.take() {
        Some((u, mut t)) => {
            t.append(s);
            st.link = Some((u, t));
            assert(mv(*st) =~= md_add_text(mv(*old(st)), s@));
            return;
        },
        None => {},
    }
    match st.image.take() {
        Some((u, mut a)) => {
            a.append(s);
            st.image = Some((u, a));
            assert(mv(*st) =~= md_add_text(mv(*old(st)), s@));
            return;
        },
        None => {},
    }
    assert(mv(*st) =~= mv(*old(st)));
    let inl = crate::parsers::docx::styled_inline(s.to_owned(), st.bold > 0, st.italic > 0, st.strike > 0);
    push_inline(st, inl);
}

fn flush(st: &mut MdState)
    ensures
        mv(*final(st)) == md_flush(mv(*old(st))),
{
    if st.heading.is_some() || st.code.is_some() || st.in_quote {
        return;
    }
    let mut inl: Vec<Inline> = Vec::new();
    std::mem::swap(&mut inl, &mut st.inline);
    assert(inlines_view(st.inline@) =~= Seq::<InlineV>::empty());
    let p = plain_text(&inl);
    if !is_blank_str(p.as_str()) {
        push_block(st, Block::Paragraph(inl));
    }
    assert(mv(*st) =~= md_flush(mv(*old(st))));
}

fn code_lang_exec(info: Option<String>) -> (r: Option<String>)
    ensures
        crate::ir::opt_str_view(r) == code_lang(crate::ir::opt_str_view(info)),
{
    match info {
        None => None,
        Some(i) => {
            let cs = chars_of(i.as_str());
            let mut a: usize = 0;
            assert(cs@.skip(0) =~= cs@);
            while a < cs.len() && is_whitespace(cs[a])
                invariant
                    a <= cs@.len(),
                    skip_ws(cs@) == skip_ws(cs@.skip(a as int)),
                decreases cs@.len() - a,
            {
                assert(cs@.skip(a as int).drop_first() =~= cs@.skip(a + 1));
                a = a + 1;
            }
            assert(skip_ws(cs@.skip(a as int)) == cs@.skip(a as int)) by {
                if a < cs@.len() {
                    assert(cs@.skip(a as int)[0] == cs@[a as int]);
                }
            }
            let mut b = a;
            while b < cs.len() && !is_whitespace(cs[b])
                invariant
                    a <= b <= cs@.len(),
                    take_word(cs@.skip(a as int)) == cs@.subrange(a as int, b as int) + take_word(cs@.skip(b as int)),
                decreases cs@.len() - b,
            {
                assert(cs@.skip(b as int)[0] == cs@[b as int]);
                assert(cs@.skip(b as int).drop_first() =~= cs@.skip(b + 1));
                assert(cs@.subrange(a as int, b + 1) =~= cs@.subrange(a as int, b as int) + seq![cs@[b as int]]);
                b = b + 1;
            }
            assert(take_word(cs@.skip(b as int)) =~= Seq::<char>::empty()) by {
                if b < cs@.len() {
                    assert(cs@.skip(b as int)[0] == cs@[b as int]);
                }
            }
            assert(cs@.subrange(a as int, b as int) + Seq::<char>::empty() =~= cs@.subrange(a as int, b as int));
            if b == a {
                None
            } else {
                let w = sub_chars(&cs, a, b);
                Some(string_of(w.as_slice()))
            }
        },
    }
}

fn empty_table_build_exec() -> (t: TableBuild)
    ensures
        table_build_view(t) == empty_table_build(),
{
    let t = TableBuild { headers: Vec::new(), rows: Vec::new(), cur_row: Vec::new(), cell: String::new(), in_head: false };
    assert(t.headers.deep_view() =~= Seq::<Seq<char>>::empty());
    assert(t.rows.deep_view() =~= Seq::<Seq<Seq<char>>>::empty());
    assert(t.cur_row.deep_view() =~= Seq::<Seq<char>>::empty());
    assert(table_build_view(t) == empty_table_build());
    t
}

fn inc_exec(x: u32) -> (r: u32)
    ensures
        r == inc(x),
{
    if x == u32::MAX { x } else { x + 1 }
}

fn dec_exec(x: u32) -> (r: u32)
    ensures
        r == dec(x),
{
    if x == 0 { 0 } else { x - 1 }
}

#[verifier::rlimit(30)]
fn start_tag(st: &mut MdState, t: &MdTag)
    ensures
        mv(*final(st)) == md_start(mv(*old(st)), md_tag_view(*t)),
{
    match t {
        MdTag::Heading(level) => {
            flush(st);
            st.inline = Vec::new();
            st.heading = Some(*level);
            assert(inlines_view(st.inline@) =~= Seq::<InlineV>::empty());
        },
        MdTag::CodeBlock(info) => {
            let lang = code_lang_exec(info.clone());
            flush(st);
            st.code = Some((lang, String::new()));
        },
        MdTag::List(ordered) => {
            flush(st);
            let lb = ListBuild { ordered: *ordered, items: Vec::new(), cur: Vec::new(), cur_sublist: None };
            let ghost before = lists_view(st.lists@);
            st.lists.push(lb);
            assert(list_build_view(lb).items =~= Seq::<ListItemV>::empty());
            assert(list_build_view(lb).cur =~= Seq::<InlineV>::empty());
            assert(lists_view(st.lists@) =~= before.push(list_build_view(lb)));
        },
        MdTag::Link(u) => {
            st.link = Some((u.clone(), String::new()));
        },
        MdTag::Image(u) => {
            st.image = Some((u.clone(), String::new()));
        },
        MdTag::Plain(p) => match p {
            MdPlainTag::BlockQuote => {
                flush(st);
                st.in_quote = true;
            },
            MdPlainTag::Item => {
                if st.lists.len() > 0 {
                    let mut lb = take_last_list(&mut st.lists);
                    lb.cur = Vec::new();
                    lb.cur_sublist = None;
                    assert(inlines_view(lb.cur@) =~= Seq::<InlineV>::empty());
                    st.lists.push(lb);
                    proof {
                        lemma_put_back_list(old(st).lists@, lb);
                    }
                }
            },
            MdPlainTag::Emphasis => st.italic = inc_exec(st.italic),
            MdPlainTag::Strong => st.bold = inc_exec(st.bold),
            MdPlainTag::Strikethrough => st.strike = inc_exec(st.strike),
            MdPlainTag::Table => st.table = Some(empty_table_build_exec()),
            MdPlainTag::TableHead => match st.table.take() {
                Some(mut tb) => {
                    tb.in_head = true;
                    tb.cur_row = Vec::new();
                    assert(tb.cur_row.deep_view() =~= Seq::<Seq<char>>::empty());
                    st.table = Some(tb);
                },
                None => {},
            },
            MdPlainTag::TableRow => match st.table.take() {
                Some(mut tb) => {
                    tb.cur_row = Vec::new();
                    assert(tb.cur_row.deep_view() =~= Seq::<Seq<char>>::empty());
                    st.table = Some(tb);
                },
                None => {},
            },
            MdPlainTag::TableCell => match st.table.take() {
                Some(mut tb) => {
                    tb.cell = String::new();
                    st.table = Some(tb);
                },
                None => {},
            },
            _ => {},
        },
    }
    assert(mv(*st) =~= md_start(mv(*old(st)), md_tag_view(*t)));
}

fn end_list(st: &mut MdState)
    ensures
        mv(*final(st)) == md_end_list(mv(*old(st))),
{
    if st.lists.len() == 0 {
        return;
    }
    let lb = take_last_list(&mut st.lists);
    assert(lists_view(st.lists@) =~= lists_view(old(st).lists@).drop_last());
    if st.lists.len() > 0 {
        let mut parent = take_last_list(&mut st.lists);
        let nl = NestedList { ordered: lb.ordered, items: lb.items };
        parent.cur_sublist = Some(Box::new(nl));
        let ghost mid = st.lists@;
        st.lists.push(parent);
        proof {
            lemma_put_back_list(old(st).lists@.drop_last(), parent);
            assert(old(st).lists@.drop_last().drop_last() =~= mid);
        }
    } else if lb.items.len() > 0 {
        push_block(st, Block::List { ordered: lb.ordered, items: lb.items });
    }
    assert(mv(*st) =~= md_end_list(mv(*old(st))));
}

fn end_item(st: &mut MdState)
    ensures
        mv(*final(st)) == md_end_item(mv(*old(st))),
{
    if st.lists.len() == 0 {
        return;
    }
    let mut lb = take_last_list(&mut st.lists);
    let mut content: Vec<Inline> = Vec::new();
    std::mem::swap(&mut content, &mut lb.cur);
    let sublist = lb.cur_sublist.take();
    let p = plain_text(&content);
    if !is_blank_str(p.as_str()) || sublist.is_some() {
        let item = ListItem { content, sublist };
        proof {
            crate::ir::lemma_list_items_view_push(lb.items@, item);
        }
        lb.items.push(item);
    }
    assert(inlines_view(lb.cur@) =~= Seq::<InlineV>::empty());
    st.lists.push(lb);
    proof {
        lemma_put_back_list(old(st).lists@, lb);
    }
    assert(mv(*st) =~= md_end_item(mv(*old(st))));
}

fn trim_newlines(s: &str) -> (r: String)
    ensures
        r@ == trim_end_char(s@, '\n'),
{
    let cs = chars_of(s);
    let n = trim_end_char_len(&cs, '\n');
    let w = sub_chars(&cs, 0, n);
    assert(w@ =~= cs@.take(n as int));
    string_of(w.as_slice())
}

fn image_target_exec(url: String) -> (r: ImageData)
    ensures
        r@ == image_target(url@),
{
    if starts_with_str(url.as_str(), "http://") || starts_with_str(url.as_str(), "https://") {
        ImageData::Url(url)
    } else {
        ImageData::Path(url)
    }
}

#[verifier::rlimit(60)]
fn end_tag(st: &mut MdState, k: MdTagKind)
    ensures
        mv(*final(st)) == md_end(mv(*old(st)), k),
{
    match k {
        MdTagKind::Heading => {
            let p = plain_text(&st.inline);
            let text = collapse_ws(p.as_str());
            let level: u8 = match st.heading {
                Some(l) => l,
                None => 1,
            };
            if !text.as_str().is_empty() {
                push_block(st, Block::Heading { level, text });
            }
            st.heading = None;
            st.inline = Vec::new();
            assert(inlines_view(st.inline@) =~= Seq::<InlineV>::empty());
        },
        MdTagKind::Paragraph => {
            if st.lists.len() > 0 {
                let n = st.lists.len();
                if st.lists[n - 1].cur.len() > 0 {
                    let mut lb = take_last_list(&mut st.lists);
                    let ghost before = inlines_view(lb.cur@);
                    let sp = Inline::Text(" ".to_owned());
                    lb.cur.push(sp);
                    assert(inlines_view(lb.cur@) =~= before.push(InlineV::Text(" "@)));
                    st.lists.push(lb);
                    proof {
                        lemma_put_back_list(old(st).lists@, lb);
                    }
                }
            } else if st.in_quote {
                if st.inline.len() > 0 {
                    let ghost before = inlines_view(st.inline@);
                    st.inline.push(Inline::Text(" ".to_owned()));
                    assert(inlines_view(st.inline@) =~= before.push(InlineV::Text(" "@)));
                }
            } else {
                flush(st);
            }
        },
        MdTagKind::BlockQuote => {
            st.in_quote = false;
            let mut inl: Vec<Inline> = Vec::new();
            std::mem::swap(&mut inl, &mut st.inline);
            assert(inlines_view(st.inline@) =~= Seq::<InlineV>::empty());
            let p = plain_text(&inl);
            if !is_blank_str(p.as_str()) {
                push_block(st, Block::Quote(inl));
            }
        },
        MdTagKind::CodeBlock => match st.code.take() {
            Some((lang, code)) => {
                let c = trim_newlines(code.as_str());
                push_block(st, Block::CodeBlock { lang, code: c });
            },
            None => {},
        },
        MdTagKind::List => end_list(st),
        MdTagKind::Item => end_item(st),
        MdTagKind::Emphasis => st.italic = dec_exec(st.italic),
        MdTagKind::Strong => st.bold = dec_exec(st.bold),
        MdTagKind::Strikethrough => st.strike = dec_exec(st.strike),
        MdTagKind::Link => match st.link.take() {
            Some((url, text)) => {
                let t = trim_string(text.as_str());
                if !t.as_str().is_empty() {
                    push_inline(st, Inline::Link { text: t, url });
                }
            },
            None => {},
        },
        MdTagKind::Image => match st.image.take() {
            Some((url, alt)) => {
                match st.table.take() {
                    Some(mut tb) => {
                        tb.cell.append(alt.as_str());
                        st.table = Some(tb);
                    },
                    None => {
                        flush(st);
                        let data = image_target_exec(url);
                        push_block(st, Block::Image { alt, data });
                    },
                }
            },
            None => {},
        },
        MdTagKind::TableCell => match st.table.take() {
            Some(mut tb) => {
                let c = collapse_ws(tb.cell.as_str());
                let ghost before = tb.cur_row.deep_view();
                tb.cur_row.push(c);
                assert(tb.cur_row.deep_view() =~= before.push(c@));
                tb.cell = String::new();
                st.table = Some(tb);
            },
            None => {},
        },
        MdTagKind::TableHead => match st.table.take() {
            Some(mut tb) => {
                let mut row: Vec<String> = Vec::new();
                std::mem::swap(&mut row, &mut tb.cur_row);
                tb.headers = row;
                tb.in_head = false;
                assert(tb.cur_row.deep_view() =~= Seq::<Seq<char>>::empty());
                st.table = Some(tb);
            },
            None => {},
        },
        MdTagKind::TableRow => match st.table.take() {
            Some(mut tb) => {
                if !tb.in_head {
                    let mut row: Vec<String> = Vec::new();
                    std::mem::swap(&mut row, &mut tb.cur_row);
                    let ghost before = tb.rows.deep_view();
                    tb.rows.push(row);
                    assert(tb.rows.deep_view() =~= before.push(row.deep_view()));
                    assert(tb.cur_row.deep_view() =~= Seq::<Seq<char>>::empty());
                }
                st.table = Some(tb);
            },
            None => {},
        },
        MdTagKind::Table => match st.table.take() {
            Some(tb) => {
                push_block(st, Block::Table(Table { headers: tb.headers, rows: tb.rows, caption: None }));
            },
            None => {},
        },
        MdTagKind::Other => {},
    }
    assert(mv(*st) =~= md_end(mv(*old(st)), k));
}

fn step(st: &mut MdState, ev: &MdEvent)
    ensures
        mv(*final(st)) == md_step(mv(*old(st)), md_event_view(*ev)),
{
    match ev {
        MdEvent::Start(t) => start_tag(st, t),
        MdEvent::End(k) => end_tag(st, *k),
        MdEvent::Text(s) => add_text(st, s.as_str()),
        MdEvent::Code(s) => {
            if st.link.is_some() || st.image.is_some() {
                add_text(st, s.as_str());
            } else {
                push_inline(st, Inline::Code(s.clone()));
            }
        },
        MdEvent::SoftBreak => add_text(st, " "),
        MdEvent::HardBreak => push_inline(st, Inline::LineBreak),
        MdEvent::Rule => {
            flush(st);
            push_block(st, Block::HorizontalRule);
        },
        MdEvent::TaskListMarker(c) => {
            let mark = if *c { "[x] " } else { "[ ] " };
            push_inline(st, Inline::Text(mark.to_owned()));
        },
        MdEvent::Other => {},
    }
}

/// The blocks of a Markdown text.
pub fn markdown_to_blocks(text: &str) -> (r: Vec<Block>)
    ensures
        blocks_view(r@) == markdown_blocks(text@),
{
    let evs = markdown_events(text);
    let ghost ev = md_events_view(evs@);
    let mut st = MdState {
        blocks: Vec::new(),
        inline: Vec::new(),
        bold: 0,
        italic: 0,
        strike: 0,
        heading: None,
        in_quote: false,
        code: None,
        link: None,
        image: None,
        lists: Vec::new(),
        table: None,
    };
    assert(mv(st) =~= md_init());
    assert(ev.take(0) =~= Seq::<MdEventV>::empty());
    let mut i: usize = 0;
    while i < evs.len()
        invariant
            i <= evs@.len(),
            ev == md_events_view(evs@),
            ev == md_events(text@),
            md_fold(ev.take(i as int)) == mv(st),
        decreases evs@.len() - i,
    {
        assert(ev.take(i + 1).drop_last() =~= ev.take(i as int));
        assert(ev.take(i + 1).last() == md_event_view(evs@[i as int]));
        step(&mut st, &evs[i]);
        i = i + 1;
    }
    assert(ev.take(evs@.len() as int) =~= ev);
    flush(&mut st);
    st.blocks
}

/// What parsing a Markdown file gives: the UTF-8 text without a leading
/// byte-order mark, renormalised; bytes that are not UTF-8 are an encoding error.
pub open spec fn markdown_parse_spec(input: Seq<u8>, filename: Seq<char>) -> Result<DocumentV, ParseErrorV> {
    if !valid_utf8(input) {
        Err(encoding_error("markdown"@, utf8_error_message(input)))
    } else {
        Ok(DocumentV {
            metadata: MetadataV {
                title: None,
                author: None,
                created_at: None,
                source_format: SourceFormat::Markdown,
                original_filename: filename,
                page_count: None,
                language: None,
            },
            blocks: markdown_blocks(strip_bom(decode_utf8(input))),
        })
    }
}

/// A leading byte-order mark does not change what a Markdown file gives: the
/// bytes with an encoded mark in front parse as the bytes alone (for UTF-8
/// text that does not itself start with a mark).
pub proof fn law_markdown_ignores_bom(input: Seq<u8>, filename: Seq<char>)
    requires
        valid_utf8(input),
        !(decode_utf8(input).len() > 0 && decode_utf8(input)[0] == '\u{feff}'),
    ensures
        markdown_parse_spec(utf8_bom() + input, filename) == markdown_parse_spec(input, filename),
{
    lemma_utf8_bom_prefix(input);
    assert((seq!['\u{feff}'] + decode_utf8(input)).drop_first() =~= decode_utf8(input));
}

/// Markdown files, renormalised.
pub struct MarkdownParser;

impl FormatParser for MarkdownParser {
    open spec fn spec_name(&self) -> Seq<char> {
        "markdown"@
    }

    open spec fn spec_extensions(&self) -> Seq<Seq<char>> {
        seq!["md"@, "markdown"@, "mdown"@, "mkd"@]
    }

    open spec fn spec_accepts(&self, header: Seq<u8>) -> bool {
        false
    }

    open spec fn spec_parse(&self, input: Seq<u8>, filename: Seq<char>) -> Result<DocumentV, ParseErrorV> {
        markdown_parse_spec(input, filename)
    }

    fn supported_extensions(&self) -> (r: &[&'static str]) {
        let r: &[&'static str] = &["md", "markdown", "mdown", "mkd"];
        assert(r@.map_values(|s: &str| s@) =~= seq!["md"@, "markdown"@, "mdown"@, "mkd"@]);
        r
    }

    fn can_parse_bytes(&self, header: &[u8]) -> (r: bool) {
        false
    }

    fn name(&self) -> (r: &'static str) {
        "markdown"
    }

    fn parse(&self, input: &[u8], filename: &str) -> (r: Result<Document, ParseError>) {
        let text = match utf8_decode(input) {
            Ok(t) => t,
            Err(m) => return Err(ParseError::encoding("markdown", m)),
        };
        let text = strip_bom_str(text.as_str());
        let blocks = markdown_to_blocks(text.as_str());
        Ok(Document { metadata: DocumentMetadata::new(SourceFormat::Markdown, filename), blocks })
    }
}
} // verus!
