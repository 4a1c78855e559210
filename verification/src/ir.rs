//! The format-neutral intermediate representation (IR).
//!
//! Every parser turns its own format into these types; the renderer and the
//! chunker only ever look at the IR.  Each executable type has a mathematical
//! model (`...V`) in which text is a `Seq<char>`; contracts are stated over the
//! models.

use vstd::prelude::*;

verus! {

/// A UTC instant: seconds since the Unix epoch plus a sub-second nanosecond part.
#[derive(Debug, Clone, Copy, PartialEq, Eq)]
pub struct Timestamp {
    pub seconds: i64,
    pub nanos: u32,
}

/// The whole document: metadata plus body blocks.
#[derive(Debug, PartialEq)]
pub struct Document {
    pub metadata: DocumentMetadata,
    pub blocks: Vec<Block>,
}

/// Document metadata; it becomes the Markdown frontmatter.
#[derive(Debug, Clone, PartialEq)]
pub struct DocumentMetadata {
    pub title: Option<String>,
    pub author: Option<String>,
    pub created_at: Option<Timestamp>,
    pub source_format: SourceFormat,
    pub original_filename: String,
    pub page_count: Option<usize>,
    pub language: Option<String>,
}

/// The format a document came from.
#[derive(Debug, Clone, Copy, PartialEq, Eq)]
pub enum SourceFormat {
    Docx,
    Pptx,
    Xlsx,
    Hwp,
    Hwpx,
    Pdf,
    Html,
    Markdown,
    Epub,
    Rtf,
    Odt,
    Unknown,
}

/// Block-level elements.
#[derive(Debug, PartialEq)]
pub enum Block {
    Heading { level: u8, text: String },
    Paragraph(Vec<Inline>),
    Table(Table),
    List { ordered: bool, items: Vec<ListItem> },
    CodeBlock { lang: Option<String>, code: String },
    Quote(Vec<Inline>),
    HorizontalRule,
    Image { alt: String, data: ImageData },
    Math { latex: String, display: bool },
    PageBreak,
    Footnote { id: String, content: Vec<Inline> },
}

/// Inline elements.
#[derive(Debug, PartialEq)]
pub enum Inline {
    Text(String),
    Bold(Box<Inline>),
    Italic(Box<Inline>),
    Strike(Box<Inline>),
    Code(String),
    Link { text: String, url: String },
    LineBreak,
}

/// A list item; `sublist` holds a nested list.
#[derive(Debug, PartialEq)]
pub struct ListItem {
    pub content: Vec<Inline>,
    pub sublist: Option<Box<NestedList>>,
}

/// A list nested inside a list item.
#[derive(Debug, PartialEq)]
pub struct NestedList {
    pub ordered: bool,
    pub items: Vec<ListItem>,
}

/// A table: header row, body rows and an optional caption.
#[derive(Debug, Clone, PartialEq)]
pub struct Table {
    pub headers: Vec<String>,
    pub rows: Vec<Vec<String>>,
    pub caption: Option<String>,
}

/// Image payload.
#[derive(Debug, Clone, PartialEq)]
pub enum ImageData {
    Base64 { mime: String, data: String },
    Path(String),
    Url(String),
}

// ── mathematical models ─────────────────────────────────────────

pub enum InlineV {
    Text(Seq<char>),
    Bold(Box<InlineV>),
    Italic(Box<InlineV>),
    Strike(Box<InlineV>),
    Code(Seq<char>),
    Link { text: Seq<char>, url: Seq<char> },
    LineBreak,
}

pub struct ListItemV {
    pub content: Seq<InlineV>,
    pub sublist: Option<NestedListV>,
}

pub struct NestedListV {
    pub ordered: bool,
    pub items: Seq<ListItemV>,
}

pub struct TableV {
    pub headers: Seq<Seq<char>>,
    pub rows: Seq<Seq<Seq<char>>>,
    pub caption: Option<Seq<char>>,
}

pub enum ImageDataV {
    Base64 { mime: Seq<char>, data: Seq<char> },
    Path(Seq<char>),
    Url(Seq<char>),
}

pub enum BlockV {
    Heading { level: u8, text: Seq<char> },
    Paragraph(Seq<InlineV>),
    Table(TableV),
    List { ordered: bool, items: Seq<ListItemV> },
    CodeBlock { lang: Option<Seq<char>>, code: Seq<char> },
    Quote(Seq<InlineV>),
    HorizontalRule,
    Image { alt: Seq<char>, data: ImageDataV },
    Math { latex: Seq<char>, display: bool },
    PageBreak,
    Footnote { id: Seq<char>, content: Seq<InlineV> },
}

pub struct MetadataV {
    pub title: Option<Seq<char>>,
    pub author: Option<Seq<char>>,
    pub created_at: Option<Timestamp>,
    pub source_format: SourceFormat,
    pub original_filename: Seq<char>,
    pub page_count: Option<usize>,
    pub language: Option<Seq<char>>,
}

pub struct DocumentV {
    pub metadata: MetadataV,
    pub blocks: Seq<BlockV>,
}

pub open spec fn opt_str_view(o: Option<String>) -> Option<Seq<char>> {
    match o {
        Some(s) => Some(s@),
        None => None,
    }
}

pub open spec fn inline_view(i: Inline) -> InlineV
    decreases i,
{
    match i {
        Inline::Text(s) => InlineV::Text(s@),
        Inline::Bold(b) => InlineV::Bold(Box::new(inline_view(*b))),
        Inline::Italic(b) => InlineV::Italic(Box::new(inline_view(*b))),
        Inline::Strike(b) => InlineV::Strike(Box::new(inline_view(*b))),
        Inline::Code(s) => InlineV::Code(s@),
        Inline::Link { text, url } => InlineV::Link { text: text@, url: url@ },
        Inline::LineBreak => InlineV::LineBreak,
    }
}

pub open spec fn inlines_view(s: Seq<Inline>) -> Seq<InlineV> {
    s.map_values(|i: Inline| inline_view(i))
}

pub open spec fn list_item_view(it: ListItem) -> ListItemV
    decreases it,
{
    ListItemV {
        content: inlines_view(it.content@),
        sublist: match it.sublist {
            Some(b) => Some(nested_list_view(*b)),
            None => None,
        },
    }
}

pub open spec fn nested_list_view(nl: NestedList) -> NestedListV
    decreases nl,
{
    NestedListV { ordered: nl.ordered, items: list_items_view(nl.items@) }
}

pub open spec fn list_items_view(s: Seq<ListItem>) -> Seq<ListItemV>
    decreases s,
{
    if s.len() == 0 {
        Seq::empty()
    } else {
        list_items_view(s.drop_last()).push(list_item_view(s.last()))
    }
}

pub open spec fn table_view(t: Table) -> TableV {
    TableV { headers: t.headers.deep_view(), rows: t.rows.deep_view(), caption: opt_str_view(t.caption) }
}

pub open spec fn image_data_view(d: ImageData) -> ImageDataV {
    match d {
        ImageData::Base64 { mime, data } => ImageDataV::Base64 { mime: mime@, data: data@ },
        ImageData::Path(p) => ImageDataV::Path(p@),
        ImageData::Url(u) => ImageDataV::Url(u@),
    }
}

pub open spec fn block_view(b: Block) -> BlockV {
    match b {
        Block::Heading { level, text } => BlockV::Heading { level, text: text@ },
        Block::Paragraph(v) => BlockV::Paragraph(inlines_view(v@)),
        Block::Table(t) => BlockV::Table(table_view(t)),
        Block::List { ordered, items } => BlockV::List { ordered, items: list_items_view(items@) },
        Block::CodeBlock { lang, code } => BlockV::CodeBlock { lang: opt_str_view(lang), code: code@ },
        Block::Quote(v) => BlockV::Quote(inlines_view(v@)),
        Block::HorizontalRule => BlockV::HorizontalRule,
        Block::Image { alt, data } => BlockV::Image { alt: alt@, data: image_data_view(data) },
        Block::Math { latex, display } => BlockV::Math { latex: latex@, display },
        Block::PageBreak => BlockV::PageBreak,
        Block::Footnote { id, content } => BlockV::Footnote { id: id@, content: inlines_view(content@) },
    }
}

pub open spec fn blocks_view(s: Seq<Block>) -> Seq<BlockV> {
    s.map_values(|b: Block| block_view(b))
}

pub open spec fn metadata_view(m: DocumentMetadata) -> MetadataV {
    MetadataV {
        title: opt_str_view(m.title),
        author: opt_str_view(m.author),
        created_at: m.created_at,
        source_format: m.source_format,
        original_filename: m.original_filename@,
        page_count: m.page_count,
        language: opt_str_view(m.language),
    }
}

impl View for Inline {
    type V = InlineV;

    open spec fn view(&self) -> InlineV {
        inline_view(*self)
    }
}

impl View for ListItem {
    type V = ListItemV;

    open spec fn view(&self) -> ListItemV {
        list_item_view(*self)
    }
}

impl View for NestedList {
    type V = NestedListV;

    open spec fn view(&self) -> NestedListV {
        nested_list_view(*self)
    }
}

impl View for Table {
    type V = TableV;

    open spec fn view(&self) -> TableV {
        table_view(*self)
    }
}

impl View for ImageData {
    type V = ImageDataV;

    open spec fn view(&self) -> ImageDataV {
        image_data_view(*self)
    }
}

impl View for Block {
    type V = BlockV;

    open spec fn view(&self) -> BlockV {
        block_view(*self)
    }
}

impl View for DocumentMetadata {
    type V = MetadataV;

    open spec fn view(&self) -> MetadataV {
        metadata_view(*self)
    }
}

impl View for Document {
    type V = DocumentV;

    open spec fn view(&self) -> DocumentV {
        DocumentV { metadata: self.metadata@, blocks: blocks_view(self.blocks@) }
    }
}

// ── constructors ────────────────────────────────────────────────

impl Document {
    /// A document with the given metadata and no blocks.
    pub fn new(metadata: DocumentMetadata) -> (d: Document)
        ensures
            d@.metadata == metadata@,
            d@.blocks == Seq::<BlockV>::empty(),
    {
        Document { metadata, blocks: Vec::new() }
    }

    /// Appends a block.
    pub fn push(&mut self, block: Block)
        ensures
            final(self)@.metadata == old(self)@.metadata,
            final(self)@.blocks == old(self)@.blocks.push(block@),
    {
        self.blocks.push(block);
        assert(blocks_view(self.blocks@) =~= blocks_view(old(self).blocks@).push(block@));
    }
}

impl DocumentMetadata {
    /// Minimal metadata: only the format and the file name are known.
    pub fn new(source_format: SourceFormat, original_filename: &str) -> (m: DocumentMetadata)
        ensures
            m@ == (MetadataV {
                title: None,
                author: None,
                created_at: None,
                source_format,
                original_filename: original_filename@,
                page_count: None,
                language: None,
            }),
    {
        DocumentMetadata {
            title: None,
            author: None,
            created_at: None,
            source_format,
            original_filename: original_filename.to_owned(),
            page_count: None,
            language: None,
        }
    }
}

impl Inline {
    /// Plain text inline.
    pub fn text(s: &str) -> (i: Inline)
        ensures
            i@ == InlineV::Text(s@),
    {
        Inline::Text(s.to_owned())
    }
}

impl ListItem {
    /// A list item without a nested list.
    pub fn new(content: Vec<Inline>) -> (it: ListItem)
        ensures
            it@ == (ListItemV { content: inlines_view(content@), sublist: None }),
    {
        ListItem { content, sublist: None }
    }
}


// ── verified copies (derived `Clone` carries no contract) ───────

pub fn copy_strings(v: &Vec<String>) -> (r: Vec<String>)
    ensures
        r.deep_view() == v.deep_view(),
{
    let mut out: Vec<String> = Vec::new();
    let mut i: usize = 0;
    while i < v.len()
        invariant
            i <= v@.len(),
            out@.len() == i,
            forall|k: int| 0 <= k < i ==> #[trigger] out@[k]@ == v@[k]@,
        decreases v@.len() - i,
    {
        out.push(v[i].clone());
        i = i + 1;
    }
    assert(out.deep_view() =~= v.deep_view());
    out
}

pub fn copy_rows(v: &Vec<Vec<String>>) -> (r: Vec<Vec<String>>)
    ensures
        r.deep_view() == v.deep_view(),
{
    let mut out: Vec<Vec<String>> = Vec::new();
    let mut i: usize = 0;
    while i < v.len()
        invariant
            i <= v@.len(),
            out@.len() == i,
            forall|k: int| 0 <= k < i ==> #[trigger] out@[k].deep_view() == v@[k].deep_view(),
        decreases v@.len() - i,
    {
        out.push(copy_strings(&v[i]));
        i = i + 1;
    }
    assert(out.deep_view() =~= v.deep_view());
    out
}

pub fn copy_opt_string(o: &Option<String>) -> (r: Option<String>)
    ensures
        opt_str_view(r) == opt_str_view(*o),
{
    match o {
        Some(s) => Some(s.clone()),
        None => None,
    }
}

impl Inline {
    pub fn deep_copy(&self) -> (r: Inline)
        ensures
            r@ == self@,
        decreases self,
    {
        match self {
            Inline::Text(s) => Inline::Text(s.clone()),
            Inline::Bold(b) => Inline::Bold(Box::new((**b).deep_copy())),
            Inline::Italic(b) => Inline::Italic(Box::new((**b).deep_copy())),
            Inline::Strike(b) => Inline::Strike(Box::new((**b).deep_copy())),
            Inline::Code(s) => Inline::Code(s.clone()),
            Inline::Link { text, url } => Inline::Link { text: text.clone(), url: url.clone() },
            Inline::LineBreak => Inline::LineBreak,
        }
    }
}

pub fn copy_inlines(v: &Vec<Inline>) -> (r: Vec<Inline>)
    ensures
        inlines_view(r@) == inlines_view(v@),
{
    let mut out: Vec<Inline> = Vec::new();
    let mut i: usize = 0;
    while i < v.len()
        invariant
            i <= v@.len(),
            out@.len() == i,
            forall|k: int| 0 <= k < i ==> #[trigger] out@[k]@ == v@[k]@,
        decreases v@.len() - i,
    {
        out.push(v[i].deep_copy());
        i = i + 1;
    }
    assert forall|k: int| 0 <= k < v@.len() implies #[trigger] inlines_view(out@)[k] == inlines_view(
        v@,
    )[k] by {
        assert(out@[k]@ == v@[k]@);
    }
    assert(inlines_view(out@) =~= inlines_view(v@));
    out
}

pub proof fn lemma_list_items_view_push(s: Seq<ListItem>, x: ListItem)
    ensures
        list_items_view(s.push(x)) == list_items_view(s).push(x@),
{
    assert(s.push(x).drop_last() =~= s);
}

pub proof fn lemma_list_items_view_take(s: Seq<ListItem>, i: int)
    requires
        0 <= i < s.len(),
    ensures
        list_items_view(s.take(i + 1)) == list_items_view(s.take(i)).push(s[i]@),
{
    assert(s.take(i + 1).drop_last() =~= s.take(i));
}

impl ListItem {
    pub fn deep_copy(&self) -> (r: ListItem)
        ensures
            r@ == self@,
        decreases self,
    {
        let sublist = match &self.sublist {
            Some(b) => Some(Box::new((**b).deep_copy())),
            None => None,
        };
        ListItem { content: copy_inlines(&self.content), sublist }
    }
}

impl NestedList {
    pub fn deep_copy(&self) -> (r: NestedList)
        ensures
            r@ == self@,
        decreases self,
    {
        let mut out: Vec<ListItem> = Vec::new();
        let mut i: usize = 0;
        while i < self.items.len()
            invariant
                i <= self.items@.len(),
                list_items_view(out@) == list_items_view(self.items@.take(i as int)),
            decreases self.items@.len() - i,
        {
            proof {
                assert(decreases_to!(self => self.items@[i as int]));
                lemma_list_items_view_take(self.items@, i as int);
            }
            let c = self.items[i].deep_copy();
            proof {
                lemma_list_items_view_push(out@, c);
            }
            out.push(c);
            i = i + 1;
        }
        assert(self.items@.take(self.items@.len() as int) =~= self.items@);
        NestedList { ordered: self.ordered, items: out }
    }
}

pub fn copy_list_items(v: &Vec<ListItem>) -> (r: Vec<ListItem>)
    ensures
        list_items_view(r@) == list_items_view(v@),
{
    let mut out: Vec<ListItem> = Vec::new();
    let mut i: usize = 0;
    while i < v.len()
        invariant
            i <= v@.len(),
            list_items_view(out@) == list_items_view(v@.take(i as int)),
        decreases v@.len() - i,
    {
        proof {
            lemma_list_items_view_take(v@, i as int);
        }
        let c = v[i].deep_copy();
        proof {
            lemma_list_items_view_push(out@, c);
        }
        out.push(c);
        i = i + 1;
    }
    assert(v@.take(v@.len() as int) =~= v@);
    out
}

impl Table {
    pub fn deep_copy(&self) -> (r: Table)
        ensures
            r@ == self@,
    {
        Table {
            headers: copy_strings(&self.headers),
            rows: copy_rows(&self.rows),
            caption: copy_opt_string(&self.caption),
        }
    }
}

impl ImageData {
    pub fn deep_copy(&self) -> (r: ImageData)
        ensures
            r@ == self@,
    {
        match self {
            ImageData::Base64 { mime, data } => ImageData::Base64 { mime: mime.clone(), data: data.clone() },
            ImageData::Path(p) => ImageData::Path(p.clone()),
            ImageData::Url(u) => ImageData::Url(u.clone()),
        }
    }
}

impl Block {
    pub fn deep_copy(&self) -> (r: Block)
        ensures
            r@ == self@,
    {
        match self {
            Block::Heading { level, text } => Block::Heading { level: *level, text: text.clone() },
            Block::Paragraph(v) => Block::Paragraph(copy_inlines(v)),
            Block::Table(t) => Block::Table(t.deep_copy()),
            Block::List { ordered, items } => Block::List { ordered: *ordered, items: copy_list_items(items) },
            Block::CodeBlock { lang, code } => Block::CodeBlock {
                lang: copy_opt_string(lang),
                code: code.clone(),
            },
            Block::Quote(v) => Block::Quote(copy_inlines(v)),
            Block::HorizontalRule => Block::HorizontalRule,
            Block::Image { alt, data } => Block::Image { alt: alt.clone(), data: data.deep_copy() },
            Block::Math { latex, display } => Block::Math { latex: latex.clone(), display: *display },
            Block::PageBreak => Block::PageBreak,
            Block::Footnote { id, content } => Block::Footnote { id: id.clone(), content: copy_inlines(content) },
        }
    }
}

impl DocumentMetadata {
    pub fn deep_copy(&self) -> (r: DocumentMetadata)
        ensures
            r@ == self@,
    {
        DocumentMetadata {
            title: copy_opt_string(&self.title),
            author: copy_opt_string(&self.author),
            created_at: self.created_at,
            source_format: self.source_format,
            original_filename: self.original_filename.clone(),
            page_count: self.page_count,
            language: copy_opt_string(&self.language),
        }
    }
}

} // verus!
