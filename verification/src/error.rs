//! Error types.  They depend on no optional outside crate: each parser turns
//! an outside error into a message in one of the string variants.

use vstd::prelude::*;
use crate::text::concat;

verus! {

#[verifier::external_type_specification]
#[verifier::external_body]
pub struct ExIoError(std::io::Error);

/// What a single parser can fail with.
#[derive(Debug)]
pub enum ParseError {
    /// Reading the input failed.
    Io(std::io::Error),
    /// The container (zip, …) is damaged or lacks an expected entry.
    Container { format: &'static str, detail: String },
    /// The XML / markup could not be parsed.
    Markup { format: &'static str, detail: String },
    /// Text could not be decoded.
    Encoding { format: &'static str, detail: String },
    /// An input shape the parser does not support yet.
    Unsupported { format: &'static str, detail: String },
}

/// The kind of a [`ParseError`].
#[derive(Debug, Clone, Copy, PartialEq, Eq)]
pub enum ParseErrorKind {
    Io,
    Container,
    Markup,
    Encoding,
    Unsupported,
}

/// The model of a [`ParseError`]: its kind, its format name and its detail text.
/// An `Io` error keeps its kind only (empty format and detail): the
/// `std::io::Error` it carries is opaque here.
pub struct ParseErrorV {
    pub kind: ParseErrorKind,
    pub format: Seq<char>,
    pub detail: Seq<char>,
}

impl View for ParseError {
    type V = ParseErrorV;

    open spec fn view(&self) -> ParseErrorV {
        match self {
            ParseError::Io(_) => ParseErrorV { kind: ParseErrorKind::Io, format: Seq::empty(), detail: Seq::empty() },
            ParseError::Container { format, detail } => ParseErrorV {
                kind: ParseErrorKind::Container,
                format: format@,
                detail: detail@,
            },
            ParseError::Markup { format, detail } => ParseErrorV {
                kind: ParseErrorKind::Markup,
                format: format@,
                detail: detail@,
            },
            ParseError::Encoding { format, detail } => ParseErrorV {
                kind: ParseErrorKind::Encoding,
                format: format@,
                detail: detail@,
            },
            ParseError::Unsupported { format, detail } => ParseErrorV {
                kind: ParseErrorKind::Unsupported,
                format: format@,
                detail: detail@,
            },
        }
    }
}

/// The model of a container error.
pub open spec fn container_error(format: Seq<char>, detail: Seq<char>) -> ParseErrorV {
    ParseErrorV { kind: ParseErrorKind::Container, format, detail }
}

/// The model of a markup error.
pub open spec fn markup_error(format: Seq<char>, detail: Seq<char>) -> ParseErrorV {
    ParseErrorV { kind: ParseErrorKind::Markup, format, detail }
}

/// The model of an unsupported-input error.
pub open spec fn unsupported_error(format: Seq<char>, detail: Seq<char>) -> ParseErrorV {
    ParseErrorV { kind: ParseErrorKind::Unsupported, format, detail }
}

/// The model of an encoding error.
pub open spec fn encoding_error(format: Seq<char>, detail: Seq<char>) -> ParseErrorV {
    ParseErrorV { kind: ParseErrorKind::Encoding, format, detail }
}

impl ParseError {
    /// A container error.
    pub fn container(format: &'static str, detail: String) -> (e: ParseError)
        ensures
            e@ == (ParseErrorV { kind: ParseErrorKind::Container, format: format@, detail: detail@ }),
    {
        ParseError::Container { format, detail }
    }

    /// A markup error.
    pub fn markup(format: &'static str, detail: String) -> (e: ParseError)
        ensures
            e@ == (ParseErrorV { kind: ParseErrorKind::Markup, format: format@, detail: detail@ }),
    {
        ParseError::Markup { format, detail }
    }

    /// An unsupported-input error.
    pub fn unsupported(format: &'static str, detail: String) -> (e: ParseError)
        ensures
            e@ == unsupported_error(format@, detail@),
    {
        ParseError::Unsupported { format, detail }
    }

    /// An encoding error.
    pub fn encoding(format: &'static str, detail: String) -> (e: ParseError)
        ensures
            e@ == (ParseErrorV { kind: ParseErrorKind::Encoding, format: format@, detail: detail@ }),
    {
        ParseError::Encoding { format, detail }
    }
}

/// The message of an error, as the error prints: for each kind but `Io`, a
/// fixed wording around the format name and the detail.
pub open spec fn parse_error_message(e: ParseErrorV) -> Seq<char> {
    match e.kind {
        ParseErrorKind::Container => "malformed "@ + e.format + " container: "@ + e.detail,
        ParseErrorKind::Markup => e.format + " markup parse error: "@ + e.detail,
        ParseErrorKind::Encoding => "text encoding error in "@ + e.format + ": "@ + e.detail,
        ParseErrorKind::Unsupported => "unsupported in "@ + e.format + ": "@ + e.detail,
        ParseErrorKind::Io => "I/O error: "@,
    }
}

/// The `Display` text of an I/O error.  It comes from the operating system,
/// so nothing is stated of it.
#[verifier::external_body]
pub(crate) fn io_error_text(e: &std::io::Error) -> String {
    e.to_string()
}

impl ParseError {
    /// The error's message: `malformed {format} container: {detail}`,
    /// `{format} markup parse error: {detail}`, `text encoding error in
    /// {format}: {detail}`, `unsupported in {format}: {detail}`, or
    /// `I/O error: ` followed by the I/O error's own text.
    pub fn message(&self) -> (r: String)
        ensures
            self@.kind != ParseErrorKind::Io ==> r@ == parse_error_message(self@),
            self@.kind == ParseErrorKind::Io ==> r@.len() >= parse_error_message(self@).len() && r@.take(
                parse_error_message(self@).len() as int,
            ) == parse_error_message(self@),
    {
        match self {
            ParseError::Io(e) => {
                let t = io_error_text(e);
                let r = concat("I/O error: ", t.as_str());
                assert(r@.take(("I/O error: "@).len() as int) =~= "I/O error: "@);
                r
            },
            ParseError::Container { format, detail } => {
                let a = concat("malformed ", format);
                let b = concat(a.as_str(), " container: ");
                concat(b.as_str(), detail.as_str())
            },
            ParseError::Markup { format, detail } => {
                let a = concat(format, " markup parse error: ");
                concat(a.as_str(), detail.as_str())
            },
            ParseError::Encoding { format, detail } => {
                let a = concat("text encoding error in ", format);
                let b = concat(a.as_str(), ": ");
                concat(b.as_str(), detail.as_str())
            },
            ParseError::Unsupported { format, detail } => {
                let a = concat("unsupported in ", format);
                let b = concat(a.as_str(), ": ");
                concat(b.as_str(), detail.as_str())
            },
        }
    }
}

/// What the registry's conversion entry points fail with.
#[derive(Debug)]
pub enum ConvertError {
    /// Opening or reading the file failed.
    Io(std::io::Error),
    /// No registered parser handles this extension / these magic bytes.
    UnsupportedFormat(String),
    /// The chosen parser failed.
    Parse(ParseError),
}

} // verus!
