//! pulldown-cmark's events of a text, tied to that text: only [`md_parse`]
//! makes an [`MdEvents`], so the text its accessors speak of is the text parsed.

use vstd::prelude::*;
use pulldown_cmark::{CodeBlockKind, Event, Tag, TagEnd};
use crate::parsers::markdown::{
    event_tag_kind, is_structure_kind, is_table_kind, md_event_kind_of, md_events, MdEventKind, MdEventV,
    MdTagKind, MdTagV, MdPlainTag,
};

verus! {

/// The parsed events of a text, and the text.
pub struct MdEvents<'a> {
    evs: Vec<Event<'a>>,
    src: Ghost<Seq<char>>,
}

impl<'a> MdEvents<'a> {
    /// The text parsed.
    pub closed spec fn src(&self) -> Seq<char> {
        self.src@
    }

    /// The number of events held.
    pub closed spec fn len(&self) -> nat {
        self.evs@.len()
    }

    /// The number of events held.
    pub fn count(&self) -> (n: usize)
        ensures
            n == self.len(),
    {
        self.evs.len()
    }
}

/// Event `i` of the parsed text.
pub open spec fn md_at(m: &MdEvents, i: int) -> MdEventV {
    md_events(m.src())[i]
}

/// `i` names an event, and the events held are those of the text.
pub open spec fn md_ok(m: &MdEvents, i: int) -> bool {
    m.len() == md_events(m.src()).len() && 0 <= i < m.len()
}

/// `pulldown_cmark::Parser::new_ext` with tables, strikethrough and task lists, collected.
#[verifier::external_body]
pub fn md_parse<'a>(text: &'a str) -> (r: MdEvents<'a>)
    ensures
        r.src() == text@,
        r.len() == md_events(text@).len(),
{
    let opts = pulldown_cmark::Options::ENABLE_TABLES | pulldown_cmark::Options::ENABLE_STRIKETHROUGH
        | pulldown_cmark::Options::ENABLE_TASKLISTS;
    MdEvents { evs: pulldown_cmark::Parser::new_ext(text, opts).collect(), src: Ghost(text@) }
}

/// The variant of event `i`.
#[verifier::external_body]
pub fn md_event_kind(m: &MdEvents, i: usize) -> (r: MdEventKind)
    requires
        md_ok(m, i as int),
    ensures
        r == md_event_kind_of(md_at(m, i as int)),
{
    match &m.evs[i] {
        Event::Start(_) => MdEventKind::Start,
        Event::End(_) => MdEventKind::End,
        Event::Text(_) => MdEventKind::Text,
        Event::Code(_) => MdEventKind::Code,
        Event::SoftBreak => MdEventKind::SoftBreak,
        Event::HardBreak => MdEventKind::HardBreak,
        Event::Rule => MdEventKind::Rule,
        Event::TaskListMarker(_) => MdEventKind::TaskListMarker,
        _ => MdEventKind::Other,
    }
}

/// The tag of start or end event `i` when it is a heading, paragraph, block quote, code block, list or item.
#[verifier::external_body]
pub fn md_structure_tag(m: &MdEvents, i: usize) -> (r: MdTagKind)
    requires
        md_ok(m, i as int),
    ensures
        r == (if is_structure_kind(event_tag_kind(md_at(m, i as int))) {
            event_tag_kind(md_at(m, i as int))
        } else {
            MdTagKind::Other
        }),
{
    match &m.evs[i] {
        Event::Start(Tag::Heading { .. }) | Event::End(TagEnd::Heading(_)) => MdTagKind::Heading,
        Event::Start(Tag::Paragraph) | Event::End(TagEnd::Paragraph) => MdTagKind::Paragraph,
        Event::Start(Tag::BlockQuote(_)) | Event::End(TagEnd::BlockQuote(_)) => MdTagKind::BlockQuote,
        Event::Start(Tag::CodeBlock(_)) | Event::End(TagEnd::CodeBlock) => MdTagKind::CodeBlock,
        Event::Start(Tag::List(_)) | Event::End(TagEnd::List(_)) => MdTagKind::List,
        Event::Start(Tag::Item) | Event::End(TagEnd::Item) => MdTagKind::Item,
        _ => MdTagKind::Other,
    }
}

/// The tag of start or end event `i` when it is a table, table head, row or cell.
#[verifier::external_body]
pub fn md_table_tag(m: &MdEvents, i: usize) -> (r: MdTagKind)
    requires
        md_ok(m, i as int),
    ensures
        r == (if is_table_kind(event_tag_kind(md_at(m, i as int))) {
            event_tag_kind(md_at(m, i as int))
        } else {
            MdTagKind::Other
        }),
{
    match &m.evs[i] {
        Event::Start(Tag::Table(_)) | Event::End(TagEnd::Table) => MdTagKind::Table,
        Event::Start(Tag::TableHead) | Event::End(TagEnd::TableHead) => MdTagKind::TableHead,
        Event::Start(Tag::TableRow) | Event::End(TagEnd::TableRow) => MdTagKind::TableRow,
        Event::Start(Tag::TableCell) | Event::End(TagEnd::TableCell) => MdTagKind::TableCell,
        _ => MdTagKind::Other,
    }
}

/// The tag of start or end event `i` when it is an emphasis, strong,
/// strikethrough, link or image (else `Other`).
#[verifier::external_body]
pub fn md_inline_tag(m: &MdEvents, i: usize) -> (r: MdTagKind)
    requires
        md_ok(m, i as int),
        !is_structure_kind(event_tag_kind(md_at(m, i as int))),
        !is_table_kind(event_tag_kind(md_at(m, i as int))),
    ensures
        r == event_tag_kind(md_at(m, i as int)),
{
    match &m.evs[i] {
        Event::Start(Tag::Emphasis) | Event::End(TagEnd::Emphasis) => MdTagKind::Emphasis,
        Event::Start(Tag::Strong) | Event::End(TagEnd::Strong) => MdTagKind::Strong,
        Event::Start(Tag::Strikethrough) | Event::End(TagEnd::Strikethrough) => MdTagKind::Strikethrough,
        Event::Start(Tag::Link { .. }) | Event::End(TagEnd::Link) => MdTagKind::Link,
        Event::Start(Tag::Image { .. }) | Event::End(TagEnd::Image) => MdTagKind::Image,
        _ => MdTagKind::Other,
    }
}

/// The level of heading start `i`.
#[verifier::external_body]
pub fn md_heading_level(m: &MdEvents, i: usize) -> (r: u8)
    requires
        md_ok(m, i as int),
        md_at(m, i as int) matches MdEventV::Start(MdTagV::Heading(_)),
    ensures
        md_at(m, i as int) == MdEventV::Start(MdTagV::Heading(r)),
{
    match &m.evs[i] {
        Event::Start(Tag::Heading { level, .. }) => *level as u8,
        _ => 1,
    }
}

/// The info string of code block start `i` when it is fenced.
#[verifier::external_body]
pub fn md_code_info(m: &MdEvents, i: usize) -> (r: Option<String>)
    requires
        md_ok(m, i as int),
        md_at(m, i as int) matches MdEventV::Start(MdTagV::CodeBlock(_)),
    ensures
        md_at(m, i as int) == MdEventV::Start(MdTagV::CodeBlock(crate::ir::opt_str_view(r))),
{
    match &m.evs[i] {
        Event::Start(Tag::CodeBlock(CodeBlockKind::Fenced(info))) => Some(info.to_string()),
        _ => None,
    }
}

/// Whether list start `i` is an ordered list.
#[verifier::external_body]
pub fn md_list_ordered(m: &MdEvents, i: usize) -> (r: bool)
    requires
        md_ok(m, i as int),
        md_at(m, i as int) matches MdEventV::Start(MdTagV::List(_)),
    ensures
        md_at(m, i as int) == MdEventV::Start(MdTagV::List(r)),
{
    match &m.evs[i] {
        Event::Start(Tag::List(start)) => start.is_some(),
        _ => false,
    }
}

/// The destination of link or image start `i`.
#[verifier::external_body]
pub fn md_dest_url(m: &MdEvents, i: usize) -> (r: String)
    requires
        md_ok(m, i as int),
        md_at(m, i as int) matches MdEventV::Start(MdTagV::Link(_))
            || md_at(m, i as int) matches MdEventV::Start(MdTagV::Image(_)),
    ensures
        md_at(m, i as int) == MdEventV::Start(MdTagV::Link(r@))
            || md_at(m, i as int) == MdEventV::Start(MdTagV::Image(r@)),
{
    match &m.evs[i] {
        Event::Start(Tag::Link { dest_url, .. }) | Event::Start(Tag::Image { dest_url, .. }) => dest_url.to_string(),
        _ => String::new(),
    }
}

/// The text of text or inline-code event `i`.
#[verifier::external_body]
pub fn md_text(m: &MdEvents, i: usize) -> (r: String)
    requires
        md_ok(m, i as int),
        md_at(m, i as int) is Text || md_at(m, i as int) is Code,
    ensures
        md_at(m, i as int) == MdEventV::Text(r@) || md_at(m, i as int) == MdEventV::Code(r@),
{
    match &m.evs[i] {
        Event::Text(t) | Event::Code(t) => t.to_string(),
        _ => String::new(),
    }
}

/// Whether task-list marker `i` is checked.
#[verifier::external_body]
pub fn md_task_checked(m: &MdEvents, i: usize) -> (r: bool)
    requires
        md_ok(m, i as int),
        md_at(m, i as int) is TaskListMarker,
    ensures
        md_at(m, i as int) == MdEventV::TaskListMarker(r),
{
    match &m.evs[i] {
        Event::TaskListMarker(c) => *c,
        _ => false,
    }
}


} // verus!
