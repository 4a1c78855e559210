//! XML events as plain values, read with quick-xml.
//!
//! The format parsers are state machines over these events; this module only
//! reads the events and offers attribute / local-name helpers.

use vstd::prelude::*;
use crate::text::{chars_of, str_eq, string_of, sub_chars};
use crate::parsers::xml_reader::{open_xml, xml_advance, xml_current_attrs, xml_current_name, xml_current_text};

verus! {

#[verifier::external_type_specification]
#[verifier::external_body]
#[verifier::reject_recursive_types(R)]
pub struct ExQuickXmlReader<R>(quick_xml::reader::Reader<R>);

#[verifier::external_type_specification]
#[verifier::external_body]
pub struct ExQuickXmlEvent<'a>(quick_xml::events::Event<'a>);

/// An attribute: its key and its unescaped value (`None` when unescaping failed).
#[derive(Debug)]
pub struct XmlAttr {
    pub key: String,
    pub value: Option<String>,
}

/// One XML event.  `Text` holds the unescaped text, or the unescaping error message.
#[derive(Debug)]
pub enum XmlEvent {
    Start { name: String, attrs: Vec<XmlAttr> },
    Empty { name: String, attrs: Vec<XmlAttr> },
    End { name: String },
    Text { text: Result<String, String> },
    Other,
}

pub struct XmlAttrV {
    pub key: Seq<char>,
    pub value: Option<Seq<char>>,
}

pub enum XmlEventV {
    Start { name: Seq<char>, attrs: Seq<XmlAttrV> },
    Empty { name: Seq<char>, attrs: Seq<XmlAttrV> },
    End { name: Seq<char> },
    Text { text: Result<Seq<char>, Seq<char>> },
    Other,
}

pub open spec fn attr_view(a: XmlAttr) -> XmlAttrV {
    XmlAttrV {
        key: a.key@,
        value: match a.value {
            Some(v) => Some(v@),
            None => None,
        },
    }
}

pub open spec fn attrs_view(s: Seq<XmlAttr>) -> Seq<XmlAttrV> {
    s.map_values(|a: XmlAttr| attr_view(a))
}

pub open spec fn event_view(e: XmlEvent) -> XmlEventV {
    match e {
        XmlEvent::Start { name, attrs } => XmlEventV::Start { name: name@, attrs: attrs_view(attrs@) },
        XmlEvent::Empty { name, attrs } => XmlEventV::Empty { name: name@, attrs: attrs_view(attrs@) },
        XmlEvent::End { name } => XmlEventV::End { name: name@ },
        XmlEvent::Text { text } => XmlEventV::Text {
            text: match text {
                Ok(t) => Ok(t@),
                Err(m) => Err(m@),
            },
        },
        XmlEvent::Other => XmlEventV::Other,
    }
}

pub open spec fn events_view(s: Seq<XmlEvent>) -> Seq<XmlEventV> {
    s.map_values(|e: XmlEvent| event_view(e))
}

/// The events that quick-xml's `Reader::read_event` yields for the text
/// before it reports the end, and how the stream ends: `None` at a clean
/// end of input, `Some(message)` when reading failed.  Names are decoded
/// lossily from their bytes, attributes are the well-formed ones in order
/// with their unescaped values, text is unescaped; other events carry nothing.
pub uninterp spec fn xml_read(src: Seq<char>) -> (Seq<XmlEventV>, Option<Seq<char>>);

/// What kind of event was read.
#[derive(Debug, Clone, Copy, PartialEq, Eq)]
pub enum XmlKind {
    Start,
    Empty,
    End,
    Text,
    Other,
    Eof,
}

pub open spec fn kind_of(e: XmlEventV) -> XmlKind {
    match e {
        XmlEventV::Start { .. } => XmlKind::Start,
        XmlEventV::Empty { .. } => XmlKind::Empty,
        XmlEventV::End { .. } => XmlKind::End,
        XmlEventV::Text { .. } => XmlKind::Text,
        XmlEventV::Other => XmlKind::Other,
    }
}

pub open spec fn name_of(e: XmlEventV) -> Seq<char> {
    match e {
        XmlEventV::Start { name, .. } => name,
        XmlEventV::Empty { name, .. } => name,
        XmlEventV::End { name } => name,
        _ => Seq::empty(),
    }
}

pub open spec fn event_attrs(e: XmlEventV) -> Seq<XmlAttrV> {
    match e {
        XmlEventV::Start { attrs, .. } => attrs,
        XmlEventV::Empty { attrs, .. } => attrs,
        _ => Seq::empty(),
    }
}

/// All events of an XML text, and how the stream ended (`Some(message)` on a read error).
pub fn read_all(xml: &str) -> (r: (Vec<XmlEvent>, Option<String>))
    ensures
        events_view(r.0@) == xml_read(xml@).0,
        match r.1 {
            None => xml_read(xml@).1 is None,
            Some(m) => xml_read(xml@).1 == Some(m@),
        },
{
    let mut r = open_xml(xml);
    let mut evs: Vec<XmlEvent> = Vec::new();
    let ghost all = xml_read(xml@).0;
    loop
        invariant
            r.src() == xml@,
            all == xml_read(xml@).0,
            r.pos() == evs@.len(),
            evs@.len() <= all.len(),
            events_view(evs@) == all.take(evs@.len() as int),
        decreases all.len() - r.pos(),
    {
        let ghost p = r.pos();
        match xml_advance(&mut r) {
            Err(m) => {
                assert(all.take(evs@.len() as int) =~= all);
                return (evs, Some(m));
            },
            Ok(XmlKind::Eof) => {
                assert(all.take(evs@.len() as int) =~= all);
                return (evs, None);
            },
            Ok(k) => {
                let ev = match k {
                    XmlKind::Start => XmlEvent::Start {
                        name: xml_current_name(&r),
                        attrs: xml_current_attrs(&r),
                    },
                    XmlKind::Empty => XmlEvent::Empty {
                        name: xml_current_name(&r),
                        attrs: xml_current_attrs(&r),
                    },
                    XmlKind::End => XmlEvent::End { name: xml_current_name(&r) },
                    XmlKind::Text => XmlEvent::Text { text: xml_current_text(&r) },
                    _ => XmlEvent::Other,
                };
                assert(event_view(ev) == all[p as int]);
                let ghost before = evs@;
                evs.push(ev);
                assert(events_view(evs@) =~= all.take(evs@.len() as int)) by {
                    assert(events_view(evs@) =~= events_view(before).push(event_view(ev)));
                }
            },
        }
    }
}

// ── attribute helpers ───────────────────────────────────────────

/// The first attribute with this key whose value unescaped.
pub open spec fn attr_lookup(attrs: Seq<XmlAttrV>, key: Seq<char>) -> Option<Seq<char>>
    decreases attrs.len(),
{
    if attrs.len() == 0 {
        None
    } else if attrs[0].key == key && attrs[0].value is Some {
        attrs[0].value
    } else {
        attr_lookup(attrs.drop_first(), key)
    }
}

/// A name without its namespace prefix (what follows the first `:`).
pub open spec fn local_name(s: Seq<char>) -> Seq<char> {
    if s.contains(':') {
        s.skip(first_index(s, ':') + 1)
    } else {
        s
    }
}

pub open spec fn first_index(s: Seq<char>, c: char) -> int
    decreases s.len(),
{
    if s.len() == 0 {
        0
    } else if s[0] == c {
        0
    } else {
        1 + first_index(s.drop_first(), c)
    }
}

/// The first attribute whose key's local name matches and whose value unescaped.
pub open spec fn attr_lookup_local(attrs: Seq<XmlAttrV>, local: Seq<char>) -> Option<Seq<char>>
    decreases attrs.len(),
{
    if attrs.len() == 0 {
        None
    } else if local_name(attrs[0].key) == local && attrs[0].value is Some {
        attrs[0].value
    } else {
        attr_lookup_local(attrs.drop_first(), local)
    }
}

/// The value of the first attribute named `key` (whose value unescaped).
pub fn attr_val(attrs: &Vec<XmlAttr>, key: &str) -> (r: Option<String>)
    ensures
        match r {
            Some(v) => attr_lookup(attrs_view(attrs@), key@) == Some(v@),
            None => attr_lookup(attrs_view(attrs@), key@) is None,
        },
{
    let ghost av = attrs_view(attrs@);
    let mut i: usize = 0;
    assert(av.skip(0) =~= av);
    while i < attrs.len()
        invariant
            i <= attrs@.len(),
            av == attrs_view(attrs@),
            attr_lookup(av.skip(i as int), key@) == attr_lookup(av, key@),
        decreases attrs@.len() - i,
    {
        assert(av.skip(i as int)[0] == attr_view(attrs@[i as int]));
        assert(av.skip(i as int).drop_first() =~= av.skip(i + 1));
        if str_eq(attrs[i].key.as_str(), key) {
            match &attrs[i].value {
                Some(v) => return Some(v.clone()),
                None => {},
            }
        }
        i = i + 1;
    }
    None
}

proof fn lemma_first_index(s: Seq<char>, c: char)
    ensures
        0 <= first_index(s, c) <= s.len(),
        s.contains(c) ==> first_index(s, c) < s.len() && s[first_index(s, c)] == c,
        forall|j: int| 0 <= j < first_index(s, c) ==> s[j] != c,
    decreases s.len(),
{
    if s.len() > 0 && s[0] != c {
        lemma_first_index(s.drop_first(), c);
        if s.contains(c) {
            let j = choose|j: int| 0 <= j < s.len() && s[j] == c;
            assert(j > 0);
            assert(s.drop_first()[j - 1] == c);
        }
        assert forall|j: int| 0 <= j < first_index(s, c) implies s[j] != c by {
            if j > 0 {
                assert(s.drop_first()[j - 1] == s[j]);
            }
        }
    }
}

/// A name without its namespace prefix.
pub fn local_name_of(s: &str) -> (r: String)
    ensures
        r@ == local_name(s@),
{
    let cs = chars_of(s);
    proof {
        lemma_first_index(cs@, ':');
    }
    let mut i: usize = 0;
    while i < cs.len()
        invariant
            i <= cs@.len(),
            cs@ == s@,
            forall|j: int| 0 <= j < i ==> cs@[j] != ':',
        decreases cs@.len() - i,
    {
        if cs[i] == ':' {
            assert(cs@.contains(':'));
            proof {
                lemma_first_index(cs@, ':');
            }
            assert(first_index(cs@, ':') == i) by {
                if first_index(cs@, ':') < i {
                    assert(cs@[first_index(cs@, ':')] == ':');
                }
            }
            let rest = sub_chars(&cs, i + 1, cs.len());
            assert(rest@ =~= cs@.skip(i + 1));
            return string_of(rest.as_slice());
        }
        i = i + 1;
    }
    assert(!cs@.contains(':'));
    assert(local_name(s@) == s@);
    s.to_owned()
}

/// The value of the first attribute whose local name is `local`.
pub fn attr_val_local(attrs: &Vec<XmlAttr>, local: &str) -> (r: Option<String>)
    ensures
        match r {
            Some(v) => attr_lookup_local(attrs_view(attrs@), local@) == Some(v@),
            None => attr_lookup_local(attrs_view(attrs@), local@) is None,
        },
{
    let ghost av = attrs_view(attrs@);
    let mut i: usize = 0;
    assert(av.skip(0) =~= av);
    while i < attrs.len()
        invariant
            i <= attrs@.len(),
            av == attrs_view(attrs@),
            attr_lookup_local(av.skip(i as int), local@) == attr_lookup_local(av, local@),
        decreases attrs@.len() - i,
    {
        assert(av.skip(i as int)[0] == attr_view(attrs@[i as int]));
        assert(av.skip(i as int).drop_first() =~= av.skip(i + 1));
        let ln = local_name_of(attrs[i].key.as_str());
        if str_eq(ln.as_str(), local) {
            match &attrs[i].value {
                Some(v) => return Some(v.clone()),
                None => {},
            }
        }
        i = i + 1;
    }
    None
}

} // verus!
