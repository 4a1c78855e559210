//! A quick-xml reader over a text, tied to that text: only [`open_xml`]
//! makes one, so the text its contracts speak of is the text it reads.

use vstd::prelude::*;
use crate::parsers::xml::{event_attrs, name_of, xml_read, kind_of, XmlAttr, XmlAttrV, XmlEventV, XmlKind, attrs_view};
use quick_xml::events::Event;

verus! {

/// A quick-xml reader over a text, with the number of events read so far.
pub struct XmlReader<'a> {
    reader: quick_xml::reader::Reader<&'a [u8]>,
    current: Option<quick_xml::events::Event<'a>>,
    src: Ghost<Seq<char>>,
    pos: Ghost<nat>,
}

impl<'a> XmlReader<'a> {
    /// The text read.
    pub closed spec fn src(&self) -> Seq<char> {
        self.src@
    }

    /// How many events have been read.
    pub closed spec fn pos(&self) -> nat {
        self.pos@
    }
}

/// `quick_xml::Reader::from_str` over the text, no event read yet.
#[verifier::external_body]
pub fn open_xml<'a>(xml: &'a str) -> (r: XmlReader<'a>)
    ensures
        r.src() == xml@,
        r.pos() == 0,
{
    XmlReader { reader: quick_xml::reader::Reader::from_str(xml), current: None, src: Ghost(xml@), pos: Ghost(0) }
}

/// `Reader::read_event`: the next event of the stream named by [`xml_read`]
/// (its kind is returned; the event is kept for the accessors below), or
/// at the end of that stream its terminal outcome.
#[verifier::external_body]
pub fn xml_advance(r: &mut XmlReader) -> (k: Result<XmlKind, String>)
    requires
        old(r).pos() <= xml_read(old(r).src()).0.len(),
    ensures
        final(r).src() == old(r).src(),
        final(r).pos() == old(r).pos() + 1,
        old(r).pos() < xml_read(old(r).src()).0.len() ==> k == Ok::<XmlKind, String>(
            kind_of(xml_read(old(r).src()).0[old(r).pos() as int]),
        ),
        old(r).pos() == xml_read(old(r).src()).0.len() ==> match xml_read(old(r).src()).1 {
            None => k == Ok::<XmlKind, String>(XmlKind::Eof),
            Some(m) => k matches Err(s) && s@ == m,
        },
{
    match r.reader.read_event() {
        Ok(e) => {
            let k = match &e {
                Event::Start(_) => XmlKind::Start,
                Event::Empty(_) => XmlKind::Empty,
                Event::End(_) => XmlKind::End,
                Event::Text(_) => XmlKind::Text,
                Event::Eof => XmlKind::Eof,
                _ => XmlKind::Other,
            };
            r.current = Some(e);
            Ok(k)
        },
        Err(e) => Err(e.to_string()),
    }
}

pub open spec fn last_read(r: &XmlReader) -> XmlEventV {
    xml_read(r.src()).0[r.pos() - 1]
}

/// The (lossily decoded) tag name of the event just read.
#[verifier::external_body]
pub fn xml_current_name(r: &XmlReader) -> (n: String)
    requires
        1 <= r.pos() <= xml_read(r.src()).0.len(),
    ensures
        n@ == name_of(last_read(r)),
{
    match &r.current {
        Some(Event::Start(b)) | Some(Event::Empty(b)) => String::from_utf8_lossy(b.name().as_ref()).into_owned(),
        Some(Event::End(b)) => String::from_utf8_lossy(b.name().as_ref()).into_owned(),
        _ => String::new(),
    }
}

/// The well-formed attributes of the tag just read, keys decoded lossily,
/// values unescaped (`None` when unescaping failed).
#[verifier::external_body]
pub fn xml_current_attrs(r: &XmlReader) -> (a: Vec<XmlAttr>)
    requires
        1 <= r.pos() <= xml_read(r.src()).0.len(),
    ensures
        attrs_view(a@) == event_attrs(last_read(r)),
{
    match &r.current {
        Some(Event::Start(b)) | Some(Event::Empty(b)) => b.attributes().flatten().map(
            |x| XmlAttr {
                key: String::from_utf8_lossy(x.key.as_ref()).into_owned(),
                value: x.unescape_value().ok().map(|v| v.into_owned()),
            },
        ).collect(),
        _ => Vec::new(),
    }
}

/// `BytesText::unescape` of the text just read.
#[verifier::external_body]
pub fn xml_current_text(r: &XmlReader) -> (t: Result<String, String>)
    requires
        1 <= r.pos() <= xml_read(r.src()).0.len(),
        last_read(r) is Text,
    ensures
        match (t, last_read(r)) {
            (Ok(s), XmlEventV::Text { text: Ok(v) }) => s@ == v,
            (Err(m), XmlEventV::Text { text: Err(v) }) => m@ == v,
            _ => false,
        },
{
    match &r.current {
        Some(Event::Text(t)) => t.unescape().map(|c| c.into_owned()).map_err(|e| e.to_string()),
        _ => Ok(String::new()),
    }
}


} // verus!
