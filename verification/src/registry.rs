//! The parser plug-in trait and the registry that dispatches an input to the
//! first parser that claims its extension (or, failing that, its magic bytes).

use vstd::prelude::*;
use crate::error::{io_error_text, parse_error_message, ConvertError, ParseError, ParseErrorKind, ParseErrorV};
use crate::ir::{Document, DocumentV};
use crate::parsers::docx::DocxParser;
use crate::parsers::html::HtmlParser;
use crate::parsers::hwpx::HwpxParser;
use crate::parsers::markdown::MarkdownParser;
use crate::parsers::pdf::{parse_pdf, pdf_parse_spec, PdfParser, PdfParts, PdfPartsV};
use crate::parsers::pptx::PptxParser;
use crate::parsers::xlsx::XlsxParser;
use crate::media::{ascii_lower, ascii_lowercase, last_index_of};
use crate::renderer::{MarkdownRenderer, render_spec};
use crate::text::{chars_of, concat, str_eq, string_of, sub_chars};

verus! {

/// The model of a parse result.
pub open spec fn parse_result_view(r: Result<Document, ParseError>) -> Result<DocumentV, ParseErrorV> {
    match r {
        Ok(d) => Ok(d@),
        Err(e) => Err(e@),
    }
}

/// A plug-in that turns one document format into the IR.
pub trait FormatParser {
    spec fn spec_name(&self) -> Seq<char>;

    spec fn spec_extensions(&self) -> Seq<Seq<char>>;

    spec fn spec_accepts(&self, header: Seq<u8>) -> bool;

    spec fn spec_parse(&self, input: Seq<u8>, filename: Seq<char>) -> Result<DocumentV, ParseErrorV>;

    /// Lower-case extensions without the dot (e.g. `["docx"]`).
    fn supported_extensions(&self) -> (r: &[&'static str])
        ensures
            r@.map_values(|s: &str| s@) == self.spec_extensions(),
    ;

    /// Recognition by magic bytes (for inputs without a usable extension).
    fn can_parse_bytes(&self, header: &[u8]) -> (r: bool)
        ensures
            r == self.spec_accepts(header@),
    ;

    /// A human-readable parser name.
    fn name(&self) -> (r: &'static str)
        ensures
            r@ == self.spec_name(),
    ;

    /// The whole input → IR.
    fn parse(&self, input: &[u8], filename: &str) -> (r: Result<Document, ParseError>)
        ensures
            parse_result_view(r) == self.spec_parse(input@, filename@),
    ;
}


/// The model of a [`ConvertError`].
pub enum ConvertErrorV {
    Io,
    UnsupportedFormat(Seq<char>),
    Parse(ParseErrorV),
}

pub open spec fn convert_error_view(e: ConvertError) -> ConvertErrorV {
    match e {
        ConvertError::Io(_) => ConvertErrorV::Io,
        ConvertError::UnsupportedFormat(s) => ConvertErrorV::UnsupportedFormat(s@),
        ConvertError::Parse(p) => ConvertErrorV::Parse(p@),
    }
}

/// The message of a conversion error: the parse error's message, or
/// `unsupported format: '{ext}' (no registered parser)`.
pub open spec fn convert_error_message(e: ConvertErrorV) -> Seq<char> {
    match e {
        ConvertErrorV::UnsupportedFormat(s) => "unsupported format: '"@ + s + "' (no registered parser)"@,
        ConvertErrorV::Parse(p) => parse_error_message(p),
        ConvertErrorV::Io => Seq::empty(),
    }
}

impl ConvertError {
    /// The error's message: that of the parse error, `unsupported format:
    /// '{ext}' (no registered parser)`, or the I/O error's own text (of which
    /// nothing is stated).
    pub fn message(&self) -> (r: String)
        ensures
            convert_error_view(*self) matches ConvertErrorV::UnsupportedFormat(_) ==> r@ == convert_error_message(
                convert_error_view(*self),
            ),
            convert_error_view(*self) matches ConvertErrorV::Parse(p) ==> (p.kind != ParseErrorKind::Io ==> r@
                == parse_error_message(p)),
    {
        match self {
            ConvertError::Io(e) => io_error_text(e),
            ConvertError::UnsupportedFormat(s) => {
                let a = concat("unsupported format: '", s.as_str());
                concat(a.as_str(), "' (no registered parser)")
            },
            ConvertError::Parse(p) => p.message(),
        }
    }
}

pub open spec fn convert_result_view(r: Result<Document, ConvertError>) -> Result<DocumentV, ConvertErrorV> {
    match r {
        Ok(d) => Ok(d@),
        Err(e) => Err(convert_error_view(e)),
    }
}

/// A registered parser: one of the library's own, or one registered from outside.
pub enum RegisteredParser {
    Docx(DocxParser),
    Pptx(PptxParser),
    Hwpx(HwpxParser),
    Xlsx(XlsxParser),
    Pdf(PdfParser),
    Html(HtmlParser),
    Markdown(MarkdownParser),
    Custom(Box<dyn FormatParser>),
}

impl FormatParser for RegisteredParser {
    open spec fn spec_name(&self) -> Seq<char> {
        match self {
            RegisteredParser::Docx(p) => p.spec_name(),
            RegisteredParser::Pptx(p) => p.spec_name(),
            RegisteredParser::Hwpx(p) => p.spec_name(),
            RegisteredParser::Xlsx(p) => p.spec_name(),
            RegisteredParser::Pdf(p) => p.spec_name(),
            RegisteredParser::Html(p) => p.spec_name(),
            RegisteredParser::Markdown(p) => p.spec_name(),
            RegisteredParser::Custom(p) => p.spec_name(),
        }
    }

    open spec fn spec_extensions(&self) -> Seq<Seq<char>> {
        match self {
            RegisteredParser::Docx(p) => p.spec_extensions(),
            RegisteredParser::Pptx(p) => p.spec_extensions(),
            RegisteredParser::Hwpx(p) => p.spec_extensions(),
            RegisteredParser::Xlsx(p) => p.spec_extensions(),
            RegisteredParser::Pdf(p) => p.spec_extensions(),
            RegisteredParser::Html(p) => p.spec_extensions(),
            RegisteredParser::Markdown(p) => p.spec_extensions(),
            RegisteredParser::Custom(p) => p.spec_extensions(),
        }
    }

    open spec fn spec_accepts(&self, header: Seq<u8>) -> bool {
        match self {
            RegisteredParser::Docx(p) => p.spec_accepts(header),
            RegisteredParser::Pptx(p) => p.spec_accepts(header),
            RegisteredParser::Hwpx(p) => p.spec_accepts(header),
            RegisteredParser::Xlsx(p) => p.spec_accepts(header),
            RegisteredParser::Pdf(p) => p.spec_accepts(header),
            RegisteredParser::Html(p) => p.spec_accepts(header),
            RegisteredParser::Markdown(p) => p.spec_accepts(header),
            RegisteredParser::Custom(p) => p.spec_accepts(header),
        }
    }

    open spec fn spec_parse(&self, input: Seq<u8>, filename: Seq<char>) -> Result<DocumentV, ParseErrorV> {
        match self {
            RegisteredParser::Docx(p) => p.spec_parse(input, filename),
            RegisteredParser::Pptx(p) => p.spec_parse(input, filename),
            RegisteredParser::Hwpx(p) => p.spec_parse(input, filename),
            RegisteredParser::Xlsx(p) => p.spec_parse(input, filename),
            RegisteredParser::Pdf(p) => p.spec_parse(input, filename),
            RegisteredParser::Html(p) => p.spec_parse(input, filename),
            RegisteredParser::Markdown(p) => p.spec_parse(input, filename),
            RegisteredParser::Custom(p) => p.spec_parse(input, filename),
        }
    }

    fn supported_extensions(&self) -> (r: &[&'static str]) {
        match self {
            RegisteredParser::Docx(p) => p.supported_extensions(),
            RegisteredParser::Pptx(p) => p.supported_extensions(),
            RegisteredParser::Hwpx(p) => p.supported_extensions(),
            RegisteredParser::Xlsx(p) => p.supported_extensions(),
            RegisteredParser::Pdf(p) => p.supported_extensions(),
            RegisteredParser::Html(p) => p.supported_extensions(),
            RegisteredParser::Markdown(p) => p.supported_extensions(),
            RegisteredParser::Custom(p) => p.supported_extensions(),
        }
    }

    fn can_parse_bytes(&self, header: &[u8]) -> (r: bool) {
        match self {
            RegisteredParser::Docx(p) => p.can_parse_bytes(header),
            RegisteredParser::Pptx(p) => p.can_parse_bytes(header),
            RegisteredParser::Hwpx(p) => p.can_parse_bytes(header),
            RegisteredParser::Xlsx(p) => p.can_parse_bytes(header),
            RegisteredParser::Pdf(p) => p.can_parse_bytes(header),
            RegisteredParser::Html(p) => p.can_parse_bytes(header),
            RegisteredParser::Markdown(p) => p.can_parse_bytes(header),
            RegisteredParser::Custom(p) => p.can_parse_bytes(header),
        }
    }

    fn name(&self) -> (r: &'static str) {
        match self {
            RegisteredParser::Docx(p) => p.name(),
            RegisteredParser::Pptx(p) => p.name(),
            RegisteredParser::Hwpx(p) => p.name(),
            RegisteredParser::Xlsx(p) => p.name(),
            RegisteredParser::Pdf(p) => p.name(),
            RegisteredParser::Html(p) => p.name(),
            RegisteredParser::Markdown(p) => p.name(),
            RegisteredParser::Custom(p) => p.name(),
        }
    }

    fn parse(&self, input: &[u8], filename: &str) -> (r: Result<Document, ParseError>) {
        match self {
            RegisteredParser::Docx(p) => p.parse(input, filename),
            RegisteredParser::Pptx(p) => p.parse(input, filename),
            RegisteredParser::Hwpx(p) => p.parse(input, filename),
            RegisteredParser::Xlsx(p) => p.parse(input, filename),
            RegisteredParser::Pdf(p) => p.parse(input, filename),
            RegisteredParser::Html(p) => p.parse(input, filename),
            RegisteredParser::Markdown(p) => p.parse(input, filename),
            RegisteredParser::Custom(p) => p.parse(input, filename),
        }
    }
}

/// Holds the registered parsers and routes inputs to them.
pub struct ParserRegistry {
    parsers: Vec<RegisteredParser>,
}

/// The index of the first parser that lists `ext` (none for an empty extension).
pub open spec fn first_by_ext(ps: Seq<RegisteredParser>, ext: Seq<char>) -> Option<int>
    decreases ps.len(),
{
    if ext.len() == 0 || ps.len() == 0 {
        None
    } else {
        match first_by_ext(ps.drop_last(), ext) {
            Some(i) => Some(i),
            None => if ps.last().spec_extensions().contains(ext) {
                Some(ps.len() - 1)
            } else {
                None
            },
        }
    }
}

/// The index of the first parser that accepts the magic bytes.
pub open spec fn first_by_magic(ps: Seq<RegisteredParser>, header: Seq<u8>) -> Option<int>
    decreases ps.len(),
{
    if ps.len() == 0 {
        None
    } else {
        match first_by_magic(ps.drop_last(), header) {
            Some(i) => Some(i),
            None => if ps.last().spec_accepts(header) {
                Some(ps.len() - 1)
            } else {
                None
            },
        }
    }
}

/// The parser chosen for an extension and a header: by extension first, by
/// magic bytes otherwise.
pub open spec fn choose_parser(ps: Seq<RegisteredParser>, ext: Seq<char>, header: Seq<u8>) -> Option<int> {
    match first_by_ext(ps, ext) {
        Some(i) => Some(i),
        None => first_by_magic(ps, header),
    }
}

/// Parse with the chosen parser, or report the format as unsupported.
pub open spec fn dispatch_spec(
    ps: Seq<RegisteredParser>,
    ext: Seq<char>,
    header: Seq<u8>,
    reported: Seq<char>,
    input: Seq<u8>,
    filename: Seq<char>,
) -> Result<DocumentV, ConvertErrorV> {
    match choose_parser(ps, ext, header) {
        None => Err(ConvertErrorV::UnsupportedFormat(reported)),
        Some(i) => match ps[i].spec_parse(input, filename) {
            Ok(d) => Ok(d),
            Err(e) => Err(ConvertErrorV::Parse(e)),
        },
    }
}

/// What a registered parser gives for an input, given the parts of a PDF
/// that a caller gathered: the PDF parser uses them, the others do not look
/// at them.
pub open spec fn parse_with_pdf_parts_spec(
    p: RegisteredParser,
    input: Seq<u8>,
    filename: Seq<char>,
    pdf: Option<PdfPartsV>,
) -> Result<DocumentV, ParseErrorV> {
    match p {
        RegisteredParser::Pdf(_) => match pdf {
            Some(parts) => pdf_parse_spec(input, filename, parts),
            None => p.spec_parse(input, filename),
        },
        _ => p.spec_parse(input, filename),
    }
}

/// [`dispatch_spec`] with the parts of a PDF handed to the chosen parser.
pub open spec fn dispatch_pdf_parts_spec(
    ps: Seq<RegisteredParser>,
    ext: Seq<char>,
    header: Seq<u8>,
    reported: Seq<char>,
    input: Seq<u8>,
    filename: Seq<char>,
    pdf: Option<PdfPartsV>,
) -> Result<DocumentV, ConvertErrorV> {
    match choose_parser(ps, ext, header) {
        None => Err(ConvertErrorV::UnsupportedFormat(reported)),
        Some(i) => match parse_with_pdf_parts_spec(ps[i], input, filename, pdf) {
            Ok(d) => Ok(d),
            Err(e) => Err(ConvertErrorV::Parse(e)),
        },
    }
}

/// The last path component that is a name (empty and `.` components are
/// skipped; `..` has no name), as `Path::file_name` gives it on Unix.
pub open spec fn file_name_spec(p: Seq<char>) -> Option<Seq<char>>
    decreases p.len(),
{
    let k = last_index_of(p, '/');
    let seg = p.skip(k + 1);
    if seg.len() == 0 || seg == "."@ {
        if k < 0 || k >= p.len() {
            None
        } else {
            file_name_spec(p.take(k))
        }
    } else if seg == ".."@ {
        None
    } else {
        Some(seg)
    }
}

/// `Path::extension` lower-cased: what follows the last `.` of the file name,
/// unless that `.` opens the name; empty when there is none.
pub open spec fn extension_spec(p: Seq<char>) -> Seq<char> {
    match file_name_spec(p) {
        None => Seq::empty(),
        Some(f) => {
            let k = last_index_of(f, '.');
            if k <= 0 {
                Seq::empty()
            } else {
                ascii_lower(f.skip(k + 1))
            }
        },
    }
}

pub open spec fn header_of(bytes: Seq<u8>) -> Seq<u8> {
    if bytes.len() <= 16 {
        bytes
    } else {
        bytes.take(16)
    }
}

proof fn lemma_last_index(s: Seq<char>, c: char)
    ensures
        -1 <= last_index_of(s, c) < s.len(),
        last_index_of(s, c) >= 0 ==> s[last_index_of(s, c)] == c,
        forall|j: int| last_index_of(s, c) < j < s.len() ==> s[j] != c,
    decreases s.len(),
{
    if s.len() > 0 && s.last() != c {
        lemma_last_index(s.drop_last(), c);
        assert forall|j: int| last_index_of(s, c) < j < s.len() implies s[j] != c by {
            if j < s.len() - 1 {
                assert(s.drop_last()[j] == s[j]);
            }
        }
    }
}

fn last_slash_after(cs: &Vec<char>, n: usize) -> (k: usize)
    requires
        n <= cs@.len(),
    ensures
        k == last_index_of(cs@.take(n as int), '/') + 1,
{
    let mut m = n;
    assert(cs@.take(n as int).take(m as int) =~= cs@.take(n as int));
    while m > 0
        invariant
            m <= n <= cs@.len(),
            last_index_of(cs@.take(m as int), '/') == last_index_of(cs@.take(n as int), '/'),
        decreases m,
    {
        assert(cs@.take(m as int).drop_last() =~= cs@.take(m - 1));
        if cs[m - 1] == '/' {
            return m;
        }
        m = m - 1;
    }
    0
}

/// The file-name component of a path, if any.
pub fn file_name_of(path: &str) -> (r: Option<String>)
    ensures
        match r {
            Some(s) => file_name_spec(path@) == Some(s@),
            None => file_name_spec(path@) is None,
        },
{
    let cs = chars_of(path);
    let mut n = cs.len();
    assert(cs@.take(n as int) =~= cs@);
    loop
        invariant
            n <= cs@.len(),
            cs@ == path@,
            file_name_spec(cs@.take(n as int)) == file_name_spec(path@),
        decreases n,
    {
        let k1 = last_slash_after(&cs, n);
        let ghost p = cs@.take(n as int);
        proof {
            lemma_last_index(p, '/');
        }
        let seg = sub_chars(&cs, k1, n);
        assert(seg@ =~= p.skip(k1 as int));
        let seg_s = string_of(seg.as_slice());
        if seg.len() == 0 || str_eq(seg_s.as_str(), ".") {
            if k1 == 0 {
                return None;
            }
            assert(p.take(k1 - 1) =~= cs@.take(k1 - 1));
            n = k1 - 1;
        } else if str_eq(seg_s.as_str(), "..") {
            return None;
        } else {
            return Some(seg_s);
        }
    }
}

/// The lower-cased extension of a path's file name (empty when there is none).
pub fn extension_of(path: &str) -> (r: String)
    ensures
        r@ == extension_spec(path@),
{
    match file_name_of(path) {
        None => String::new(),
        Some(f) => {
            let fs = chars_of(f.as_str());
            let n = fs.len();
            let k1 = last_slash_after_dot(&fs);
            proof {
                lemma_last_index(fs@, '.');
            }
            if k1 <= 1 {
                String::new()
            } else {
                let tail = sub_chars(&fs, k1, n);
                assert(tail@ =~= fs@.skip(k1 as int));
                ascii_lowercase(tail.as_slice())
            }
        },
    }
}

fn last_slash_after_dot(cs: &Vec<char>) -> (k: usize)
    ensures
        k == last_index_of(cs@, '.') + 1,
{
    let mut m = cs.len();
    assert(cs@.take(m as int) =~= cs@);
    while m > 0
        invariant
            m <= cs@.len(),
            last_index_of(cs@.take(m as int), '.') == last_index_of(cs@, '.'),
        decreases m,
    {
        assert(cs@.take(m as int).drop_last() =~= cs@.take(m - 1));
        if cs[m - 1] == '.' {
            return m;
        }
        m = m - 1;
    }
    0
}


pub open spec fn names_of(ps: Seq<RegisteredParser>) -> Seq<Seq<char>> {
    ps.map_values(|p: RegisteredParser| p.spec_name())
}

fn contains_ext(exts: &[&'static str], ext: &str) -> (r: bool)
    ensures
        r == exts@.map_values(|s: &str| s@).contains(ext@),
{
    let ghost ev = exts@.map_values(|s: &str| s@);
    let mut i: usize = 0;
    while i < exts.len()
        invariant
            i <= exts@.len(),
            ev == exts@.map_values(|s: &str| s@),
            forall|k: int| 0 <= k < i ==> ev[k] != ext@,
        decreases exts@.len() - i,
    {
        if str_eq(exts[i], ext) {
            assert(ev[i as int] == ext@);
            return true;
        }
        i = i + 1;
    }
    false
}

impl ParserRegistry {
    /// The registered parsers, in registration order.
    pub closed spec fn parsers_view(&self) -> Seq<RegisteredParser> {
        self.parsers@
    }

    /// A registry without parsers.
    pub fn empty() -> (r: ParserRegistry)
        ensures
            r.parsers_view().len() == 0,
    {
        ParserRegistry { parsers: Vec::new() }
    }

    /// A registry with the parsers of every supported format: docx, pptx,
    /// xlsx, hwpx, pdf, html, markdown, in that order.
    pub fn with_defaults() -> (r: ParserRegistry)
        ensures
            r.parsers_view() == seq![
                RegisteredParser::Docx(DocxParser),
                RegisteredParser::Pptx(PptxParser),
                RegisteredParser::Xlsx(XlsxParser),
                RegisteredParser::Hwpx(HwpxParser),
                RegisteredParser::Pdf(PdfParser),
                RegisteredParser::Html(HtmlParser),
                RegisteredParser::Markdown(MarkdownParser),
            ],
    {
        let mut parsers: Vec<RegisteredParser> = Vec::new();
        parsers.push(RegisteredParser::Docx(DocxParser));
        parsers.push(RegisteredParser::Pptx(PptxParser));
        parsers.push(RegisteredParser::Xlsx(XlsxParser));
        parsers.push(RegisteredParser::Hwpx(HwpxParser));
        parsers.push(RegisteredParser::Pdf(PdfParser));
        parsers.push(RegisteredParser::Html(HtmlParser));
        parsers.push(RegisteredParser::Markdown(MarkdownParser));
        let r = ParserRegistry { parsers };
        assert(r.parsers_view() =~= seq![
            RegisteredParser::Docx(DocxParser),
            RegisteredParser::Pptx(PptxParser),
            RegisteredParser::Xlsx(XlsxParser),
            RegisteredParser::Hwpx(HwpxParser),
            RegisteredParser::Pdf(PdfParser),
            RegisteredParser::Html(HtmlParser),
            RegisteredParser::Markdown(MarkdownParser),
        ]);
        r
    }

    /// Adds a (third-party or custom) parser after the registered ones.
    pub fn register(&mut self, parser: Box<dyn FormatParser>)
        ensures
            final(self).parsers_view() == old(self).parsers_view().push(RegisteredParser::Custom(parser)),
    {
        self.parsers.push(RegisteredParser::Custom(parser));
    }

    /// The names of the registered parsers, in order.
    pub fn parser_names(&self) -> (r: Vec<&'static str>)
        ensures
            r@.map_values(|s: &str| s@) == names_of(self.parsers_view()),
    {
        let mut out: Vec<&'static str> = Vec::new();
        let mut i: usize = 0;
        while i < self.parsers.len()
            invariant
                i <= self.parsers@.len(),
                out@.len() == i,
                forall|k: int| 0 <= k < i ==> (#[trigger] out@[k])@ == self.parsers@[k].spec_name(),
            decreases self.parsers@.len() - i,
        {
            out.push(self.parsers[i].name());
            i = i + 1;
        }
        assert(out@.map_values(|s: &str| s@) =~= names_of(self.parsers_view()));
        out
    }

    fn find_by_ext(&self, ext: &str) -> (r: Option<usize>)
        ensures
            match r {
                Some(i) => first_by_ext(self.parsers@, ext@) == Some(i as int),
                None => first_by_ext(self.parsers@, ext@) is None,
            },
    {
        if ext.is_empty() {
            return None;
        }
        let mut i: usize = 0;
        while i < self.parsers.len()
            invariant
                i <= self.parsers@.len(),
                ext@.len() > 0,
                first_by_ext(self.parsers@.take(i as int), ext@) is None,
            decreases self.parsers@.len() - i,
        {
            assert(self.parsers@.take(i + 1).drop_last() =~= self.parsers@.take(i as int));
            if contains_ext(self.parsers[i].supported_extensions(), ext) {
                proof {
                    lemma_first_by_ext_prefix(self.parsers@, ext@, i + 1);
                }
                return Some(i);
            }
            i = i + 1;
        }
        assert(self.parsers@.take(self.parsers@.len() as int) =~= self.parsers@);
        None
    }

    fn find_by_magic(&self, header: &[u8]) -> (r: Option<usize>)
        ensures
            match r {
                Some(i) => first_by_magic(self.parsers@, header@) == Some(i as int),
                None => first_by_magic(self.parsers@, header@) is None,
            },
    {
        let mut i: usize = 0;
        while i < self.parsers.len()
            invariant
                i <= self.parsers@.len(),
                first_by_magic(self.parsers@.take(i as int), header@) is None,
            decreases self.parsers@.len() - i,
        {
            assert(self.parsers@.take(i + 1).drop_last() =~= self.parsers@.take(i as int));
            if self.parsers[i].can_parse_bytes(header) {
                proof {
                    lemma_first_by_magic_prefix(self.parsers@, header@, i + 1);
                }
                return Some(i);
            }
            i = i + 1;
        }
        assert(self.parsers@.take(self.parsers@.len() as int) =~= self.parsers@);
        None
    }

    fn dispatch(
        &self,
        ext: &str,
        header: &[u8],
        reported: &str,
        input: &[u8],
        filename: &str,
    ) -> (r: Result<Document, ConvertError>)
        ensures
            convert_result_view(r) == dispatch_spec(
                self.parsers@,
                ext@,
                header@,
                reported@,
                input@,
                filename@,
            ),
    {
        self.dispatch_with(ext, header, reported, input, filename, None)
    }

    fn dispatch_with(
        &self,
        ext: &str,
        header: &[u8],
        reported: &str,
        input: &[u8],
        filename: &str,
        pdf: Option<PdfParts>,
    ) -> (r: Result<Document, ConvertError>)
        ensures
            convert_result_view(r) == dispatch_pdf_parts_spec(
                self.parsers@,
                ext@,
                header@,
                reported@,
                input@,
                filename@,
                match pdf {
                    Some(p) => Some(p@),
                    None => None,
                },
            ),
            pdf is None ==> convert_result_view(r) == dispatch_spec(
                self.parsers@,
                ext@,
                header@,
                reported@,
                input@,
                filename@,
            ),
    {
        proof {
            lemma_first_range(self.parsers@, ext@, header@);
        }
        let idx = match self.find_by_ext(ext) {
            Some(i) => Some(i),
            None => self.find_by_magic(header),
        };
        match idx {
            None => Err(ConvertError::UnsupportedFormat(reported.to_owned())),
            Some(i) => {
                let parsed = match &self.parsers[i] {
                    RegisteredParser::Pdf(p) => match pdf {
                        Some(parts) => parse_pdf(input, filename, parts),
                        None => p.parse(input, filename),
                    },
                    p => p.parse(input, filename),
                };
                match parsed {
                    Ok(d) => Ok(d),
                    Err(e) => Err(ConvertError::Parse(e)),
                }
            },
        }
    }

    /// Whether a path can be handled: by its extension, else by the first
    /// bytes of the file (`header`, `None` when the file could not be read).
    pub fn is_supported(&self, path: &str, header: Option<&[u8]>) -> (r: bool)
        ensures
            r == (first_by_ext(self.parsers_view(), extension_spec(path@)) is Some || match header {
                Some(h) => first_by_magic(self.parsers_view(), h@) is Some,
                None => false,
            }),
    {
        let ext = extension_of(path);
        if self.find_by_ext(ext.as_str()).is_some() {
            return true;
        }
        match header {
            Some(h) => self.find_by_magic(h).is_some(),
            None => false,
        }
    }

    /// A file (its path and its bytes) → IR: the parser is chosen by the
    /// path's extension first, by the first sixteen bytes otherwise.
    pub fn parse_to_ir(&self, path: &str, bytes: &[u8]) -> (r: Result<Document, ConvertError>)
        ensures
            convert_result_view(r) == dispatch_spec(
                self.parsers_view(),
                extension_spec(path@),
                header_of(bytes@),
                extension_spec(path@),
                bytes@,
                match file_name_spec(path@) {
                    Some(f) => f,
                    None => Seq::empty(),
                },
            ),
    {
        let ext = extension_of(path);
        let filename = match file_name_of(path) {
            Some(f) => f,
            None => String::new(),
        };
        let n = if bytes.len() <= 16 {
            bytes.len()
        } else {
            16
        };
        let header = &bytes[0..n];
        assert(header@ =~= header_of(bytes@));
        self.dispatch(ext.as_str(), header, ext.as_str(), bytes, filename.as_str())
    }

    /// A file (its path and its bytes) → Markdown.
    pub fn convert_to_markdown(&self, path: &str, bytes: &[u8]) -> (r: Result<String, ConvertError>)
        ensures
            ({
                let d = dispatch_spec(
                    self.parsers_view(),
                    extension_spec(path@),
                    header_of(bytes@),
                    extension_spec(path@),
                    bytes@,
                    match file_name_spec(path@) {
                        Some(f) => f,
                        None => Seq::empty(),
                    },
                );
                match r {
                    Ok(md) => d is Ok && md@ == render_spec(d->Ok_0),
                    Err(e) => d == Err::<DocumentV, ConvertErrorV>(convert_error_view(e)),
                }
            }),
    {
        let doc = self.parse_to_ir(path, bytes)?;
        Ok(MarkdownRenderer::render(&doc))
    }

    /// Any input → IR.  `ext_hint` names the format when there is no file name
    /// (e.g. a piped `--from pdf`); otherwise the whole input's magic bytes decide.
    pub fn parse_reader(&self, input: &[u8], filename: &str, ext_hint: Option<&str>) -> (r: Result<
        Document,
        ConvertError,
    >)
        ensures
            convert_result_view(r) == dispatch_spec(
                self.parsers_view(),
                match ext_hint {
                    Some(e) => ascii_lower(e@),
                    None => Seq::empty(),
                },
                input@,
                match ext_hint {
                    Some(e) => e@,
                    None => Seq::empty(),
                },
                input@,
                filename@,
            ),
    {
        let (ext, reported) = match ext_hint {
            Some(e) => {
                let cs = chars_of(e);
                (ascii_lowercase(cs.as_slice()), e.to_owned())
            },
            None => (String::new(), String::new()),
        };
        self.dispatch(ext.as_str(), input, reported.as_str(), input, filename)
    }
}

impl ParserRegistry {
    /// [`ParserRegistry::parse_to_ir`], with the parts that the PDF parser
    /// uses when the file goes to it ([`PdfParts`]).
    pub fn parse_to_ir_with_pdf_parts(&self, path: &str, bytes: &[u8], pdf: PdfParts) -> (r: Result<
        Document,
        ConvertError,
    >)
        ensures
            convert_result_view(r) == dispatch_pdf_parts_spec(
                self.parsers_view(),
                extension_spec(path@),
                header_of(bytes@),
                extension_spec(path@),
                bytes@,
                match file_name_spec(path@) {
                    Some(f) => f,
                    None => Seq::empty(),
                },
                Some(pdf@),
            ),
    {
        let ext = extension_of(path);
        let filename = match file_name_of(path) {
            Some(f) => f,
            None => String::new(),
        };
        let n = if bytes.len() <= 16 {
            bytes.len()
        } else {
            16
        };
        let header = &bytes[0..n];
        assert(header@ =~= header_of(bytes@));
        self.dispatch_with(ext.as_str(), header, ext.as_str(), bytes, filename.as_str(), Some(pdf))
    }

    /// [`ParserRegistry::parse_reader`], with the parts that the PDF parser
    /// uses when the input goes to it.
    pub fn parse_reader_with_pdf_parts(
        &self,
        input: &[u8],
        filename: &str,
        ext_hint: Option<&str>,
        pdf: PdfParts,
    ) -> (r: Result<Document, ConvertError>)
        ensures
            convert_result_view(r) == dispatch_pdf_parts_spec(
                self.parsers_view(),
                match ext_hint {
                    Some(e) => ascii_lower(e@),
                    None => Seq::empty(),
                },
                input@,
                match ext_hint {
                    Some(e) => e@,
                    None => Seq::empty(),
                },
                input@,
                filename@,
                Some(pdf@),
            ),
    {
        let (ext, reported) = match ext_hint {
            Some(e) => {
                let cs = chars_of(e);
                (ascii_lowercase(cs.as_slice()), e.to_owned())
            },
            None => (String::new(), String::new()),
        };
        self.dispatch_with(ext.as_str(), input, reported.as_str(), input, filename, Some(pdf))
    }
}

proof fn lemma_first_range(ps: Seq<RegisteredParser>, ext: Seq<char>, h: Seq<u8>)
    ensures
        first_by_ext(ps, ext) matches Some(i) ==> 0 <= i < ps.len(),
        first_by_magic(ps, h) matches Some(i) ==> 0 <= i < ps.len(),
    decreases ps.len(),
{
    if ps.len() > 0 {
        lemma_first_range(ps.drop_last(), ext, h);
    }
}

proof fn lemma_first_by_ext_prefix(ps: Seq<RegisteredParser>, ext: Seq<char>, k: int)
    requires
        0 < k <= ps.len(),
        first_by_ext(ps.take(k), ext) is Some,
    ensures
        first_by_ext(ps, ext) == first_by_ext(ps.take(k), ext),
    decreases ps.len() - k,
{
    if k < ps.len() {
        assert(ps.take(k + 1).drop_last() =~= ps.take(k));
        lemma_first_by_ext_prefix(ps, ext, k + 1);
    } else {
        assert(ps.take(k) =~= ps);
    }
}

proof fn lemma_first_by_magic_prefix(ps: Seq<RegisteredParser>, h: Seq<u8>, k: int)
    requires
        0 < k <= ps.len(),
        first_by_magic(ps.take(k), h) is Some,
    ensures
        first_by_magic(ps, h) == first_by_magic(ps.take(k), h),
    decreases ps.len() - k,
{
    if k < ps.len() {
        assert(ps.take(k + 1).drop_last() =~= ps.take(k));
        lemma_first_by_magic_prefix(ps, h, k + 1);
    } else {
        assert(ps.take(k) =~= ps);
    }
}

/// A parser registered later never takes an extension from one registered
/// before it: when some parser of the registry lists the extension, the
/// registry with one more parser sends that extension to the same parser.
pub proof fn law_register_keeps_earlier_claims(
    r: ParserRegistry,
    p: RegisteredParser,
    ext: Seq<char>,
    header: Seq<u8>,
)
    requires
        first_by_ext(r.parsers_view(), ext) is Some,
    ensures
        first_by_ext(r.parsers_view().push(p), ext) == first_by_ext(r.parsers_view(), ext),
        choose_parser(r.parsers_view().push(p), ext, header) == choose_parser(r.parsers_view(), ext, header),
{
    assert(r.parsers_view().push(p).drop_last() =~= r.parsers_view());
}

/// The same for magic bytes: when no parser lists the extension and some
/// registered parser accepts the header, a parser registered later that does
/// not list the extension leaves the choice unchanged.
pub proof fn law_register_keeps_magic_choice(r: ParserRegistry, p: RegisteredParser, ext: Seq<char>, header: Seq<u8>)
    requires
        first_by_magic(r.parsers_view(), header) is Some,
        !p.spec_extensions().contains(ext),
    ensures
        choose_parser(r.parsers_view().push(p), ext, header) == choose_parser(r.parsers_view(), ext, header),
{
    assert(r.parsers_view().push(p).drop_last() =~= r.parsers_view());
}

/// A file is reported supported exactly when converting it is not answered
/// with `UnsupportedFormat`: what `is_supported` says of a path and the first
/// bytes of a file agrees with what `parse_to_ir` does with them.
pub proof fn law_supported_iff_not_refused(r: ParserRegistry, path: Seq<char>, bytes: Seq<u8>, filename: Seq<char>)
    ensures
        (first_by_ext(r.parsers_view(), extension_spec(path)) is Some || first_by_magic(
            r.parsers_view(),
            header_of(bytes),
        ) is Some) <==> !(dispatch_spec(
            r.parsers_view(),
            extension_spec(path),
            header_of(bytes),
            extension_spec(path),
            bytes,
            filename,
        ) matches Err(ConvertErrorV::UnsupportedFormat(_))),
{
}

} // verus!
