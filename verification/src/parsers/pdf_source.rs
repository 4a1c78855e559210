//! A PDF loaded by lopdf over bytes, tied to those bytes: only [`pdf_open`]
//! makes a [`PdfDoc`], so the bytes its reads speak of are the bytes loaded.

use vstd::prelude::*;
use crate::parsers::pdf::{pdf_info, pdf_loads, pdf_pages};

verus! {

/// A document loaded by lopdf.  Its type shares its name with this crate's
/// own `Document`, so it is held here, out of Verus's sight, rather than
/// declared.
#[verifier::external_body]
struct LoadedPdf {
    doc: lopdf::Document,
}

/// A loaded document and the bytes it was loaded from.
pub struct PdfDoc {
    loaded: LoadedPdf,
    src: Ghost<Seq<u8>>,
}

impl PdfDoc {
    /// The bytes the document was loaded from.
    pub closed spec fn src(&self) -> Seq<u8> {
        self.src@
    }
}

/// `lopdf::Document::load_mem`: `Some` exactly when the bytes load.
/// Its source does not show that it returns on every malformed input; the
/// contract speaks only of calls that return.
#[verifier::external_body]
pub fn pdf_open(bytes: &[u8]) -> (r: Option<PdfDoc>)
    ensures
        r is Some == pdf_loads(bytes@),
        r matches Some(d) ==> d.src() == bytes@,
{
    let src = Ghost(bytes@);
    match lopdf::Document::load_mem(bytes) {
        Ok(doc) => Some(PdfDoc { loaded: LoadedPdf { doc }, src }),
        Err(_) => None,
    }
}

/// `Document::get_pages`: the page object ids in page-number order.
/// Its source does not show that it returns on every malformed input; the
/// contract speaks only of calls that return.
#[verifier::external_body]
pub fn page_ids(d: &PdfDoc) -> (r: Vec<(u32, u16)>)
    ensures
        r@ == pdf_pages(d.src()),
{
    d.loaded.doc.get_pages().into_values().collect()
}

/// The `/Info` string under `key`: the trailer's `Info` entry (a reference
/// is followed with `Document::get_object`), read as a dictionary, its entry
/// under `key` when that is a string.
/// Its source does not show that it returns on every malformed input; the
/// contract speaks only of calls that return.
#[verifier::external_body]
pub fn info_bytes(d: &PdfDoc, key: &str) -> (r: Option<Vec<u8>>)
    ensures
        match r {
            Some(b) => pdf_info(d.src(), key@) == Some(b@),
            None => pdf_info(d.src(), key@) is None,
        },
{
    let info = match d.loaded.doc.trailer.get(b"Info").ok()? {
        lopdf::Object::Reference(id) => d.loaded.doc.get_object(*id).ok()?,
        other => other,
    };
    match info.as_dict().ok()?.get(key.as_bytes()).ok()? {
        lopdf::Object::String(bytes, _) => Some(bytes.clone()),
        _ => None,
    }
}

} // verus!
