//! IR → Markdown.  The output is a function of the IR alone: each clause below
//! states the exact text produced for every construct.

use vstd::prelude::*;
use crate::ir::{
    Block, BlockV, Document, DocumentMetadata, DocumentV, ImageData, ImageDataV, Inline, InlineV,
    ListItem, ListItemV, MetadataV, SourceFormat, Table, TableV, Timestamp, blocks_view,
    inlines_view, list_items_view, opt_str_view,
};
use crate::strs::{
    concat_all, decimal, decimal_string, join, lemma_concat_all_step, lemma_join_step,
    lemma_map_chars_step, lines, map_chars, newline_pieces, strip_line_end, trim, trim_end_char,
    trim_end_char_len, trim_string,
};
use crate::text::{chars_of, collapse, collapse_ws, is_blank, is_blank_str, is_ws, push_char, string_of};

verus! {

// ── specification ───────────────────────────────────────────────

pub open spec fn escape_pipe_char(c: char) -> Seq<char> {
    if c == '|' {
        seq!['\\', '|']
    } else {
        seq![c]
    }
}

pub open spec fn escape_pipe_fn() -> spec_fn(char) -> Seq<char> {
    |c: char| escape_pipe_char(c)
}

/// Inline text escaping: every `|` becomes `\|`.
pub open spec fn escape_inline_spec(s: Seq<char>) -> Seq<char> {
    map_chars(s, escape_pipe_fn())
}

/// Table cell text: whitespace collapsed, then `|` escaped.
pub open spec fn escape_cell_spec(s: Seq<char>) -> Seq<char> {
    escape_inline_spec(collapse(s))
}

pub open spec fn render_inline_spec(i: InlineV) -> Seq<char>
    decreases i,
{
    match i {
        InlineV::Text(s) => escape_inline_spec(s),
        InlineV::Bold(b) => "**"@ + render_inline_spec(*b) + "**"@,
        InlineV::Italic(b) => "*"@ + render_inline_spec(*b) + "*"@,
        InlineV::Strike(b) => "~~"@ + render_inline_spec(*b) + "~~"@,
        InlineV::Code(s) => "`"@ + s + "`"@,
        InlineV::Link { text, url } => "["@ + escape_inline_spec(text) + "]("@ + url + ")"@,
        InlineV::LineBreak => "  \n"@,
    }
}

pub open spec fn render_inlines_spec(s: Seq<InlineV>) -> Seq<char>
    decreases s.len(),
{
    if s.len() == 0 {
        Seq::empty()
    } else {
        render_inlines_spec(s.drop_last()) + render_inline_spec(s.last())
    }
}

pub open spec fn image_ref_spec(d: ImageDataV) -> Seq<char> {
    match d {
        ImageDataV::Base64 { mime, data } => "data:"@ + mime + ";base64,"@ + data,
        ImageDataV::Path(p) => p,
        ImageDataV::Url(u) => u,
    }
}

/// Characters that make a YAML plain scalar ambiguous when they come first.
pub open spec fn yaml_indicator(c: char) -> bool {
    c == '-' || c == '?' || c == '*' || c == '&' || c == '!' || c == '%' || c == '@' || c == '`'
        || c == '[' || c == '{' || c == '>' || c == '|'
}

pub open spec fn yaml_escape_char(c: char) -> Seq<char> {
    if c == '\\' {
        seq!['\\', '\\']
    } else if c == '"' {
        seq!['\\', '"']
    } else if c == '\n' {
        seq!['\\', 'n']
    } else if c == '\r' {
        seq!['\\', 'r']
    } else {
        seq![c]
    }
}

pub open spec fn yaml_escape_fn() -> spec_fn(char) -> Seq<char> {
    |c: char| yaml_escape_char(c)
}

pub open spec fn yaml_needs_quote(s: Seq<char>) -> bool {
    ||| s.contains(':')
    ||| s.contains('#')
    ||| s.contains('"')
    ||| s.contains('\n')
    ||| s.contains('\r')
    ||| is_ws(s[0])
    ||| is_ws(s.last())
    ||| yaml_indicator(s[0])
}

/// A YAML scalar that stays on one line: `""` when empty, double-quoted (with
/// `\` and `"` escaped, line breaks written `\n` / `\r`) when it holds `:`, `#`,
/// `"` or a line break, starts or ends with whitespace or starts with an indicator.
pub open spec fn yaml_scalar_spec(s: Seq<char>) -> Seq<char> {
    if s.len() == 0 {
        seq!['"', '"']
    } else if yaml_needs_quote(s) {
        seq!['"'] + map_chars(s, yaml_escape_fn()) + seq!['"']
    } else {
        s
    }
}

/// The number of backticks at the end of `s`.
pub open spec fn backtick_run_end(s: Seq<char>) -> nat
    decreases s.len(),
{
    if s.len() > 0 && s.last() == '`' {
        backtick_run_end(s.drop_last()) + 1
    } else {
        0
    }
}

/// The length of the longest run of backticks in `s`.
pub open spec fn max_backtick_run(s: Seq<char>) -> nat
    decreases s.len(),
{
    if s.len() == 0 {
        0
    } else {
        let m = max_backtick_run(s.drop_last());
        let e = backtick_run_end(s);
        if e > m {
            e
        } else {
            m
        }
    }
}

/// The fence length: one more than the longest run of backticks in the code,
/// and at least three.
pub open spec fn fence_len(code: Seq<char>) -> nat {
    if max_backtick_run(code) < 3 {
        3
    } else {
        max_backtick_run(code) + 1
    }
}

/// The code fence: a run of backticks longer than any run in the code.
pub open spec fn pick_fence_spec(code: Seq<char>) -> Seq<char> {
    repeat_char('`', fence_len(code))
}

pub open spec fn repeat_char(c: char, n: nat) -> Seq<char>
    decreases n,
{
    if n == 0 {
        Seq::empty()
    } else {
        repeat_char(c, (n - 1) as nat).push(c)
    }
}

pub open spec fn clamp_level(level: u8) -> nat {
    if level < 1 {
        1
    } else if level > 6 {
        6
    } else {
        level as nat
    }
}

pub open spec fn opt_or_empty(o: Option<Seq<char>>) -> Seq<char> {
    match o {
        Some(s) => s,
        None => Seq::empty(),
    }
}

pub open spec fn quote_lines(ls: Seq<Seq<char>>) -> Seq<Seq<char>> {
    ls.map_values(|l: Seq<char>| "> "@ + l)
}

/// Each line of `s` prefixed with `> `, lines joined by `\n`, then a final `\n`.
pub open spec fn quote_spec(s: Seq<char>) -> Seq<char> {
    join(quote_lines(lines(s)), "\n"@) + "\n"@
}

pub open spec fn escaped_cells(cells: Seq<Seq<char>>) -> Seq<Seq<char>> {
    cells.map_values(|c: Seq<char>| escape_cell_spec(c))
}

pub open spec fn cells_line(cells: Seq<Seq<char>>) -> Seq<char> {
    "| "@ + join(escaped_cells(cells), " | "@) + " |\n"@
}

pub open spec fn pad_row_spec(row: Seq<Seq<char>>, n: nat) -> Seq<Seq<char>> {
    if row.len() >= n {
        row
    } else {
        row + Seq::new((n - row.len()) as nat, |i: int| Seq::<char>::empty())
    }
}

pub open spec fn dashes(n: nat) -> Seq<Seq<char>> {
    Seq::new(n, |i: int| "---"@)
}

pub open spec fn sep_line(n: nat) -> Seq<char> {
    "| "@ + join(dashes(n), " | "@) + " |\n"@
}

pub open spec fn rows_text(rows: Seq<Seq<Seq<char>>>, n: nat) -> Seq<char>
    decreases rows.len(),
{
    if rows.len() == 0 {
        Seq::empty()
    } else {
        rows_text(rows.drop_last(), n) + cells_line(pad_row_spec(rows.last(), n))
    }
}

pub open spec fn max_row_len(rows: Seq<Seq<Seq<char>>>) -> nat
    decreases rows.len(),
{
    if rows.len() == 0 {
        0
    } else {
        let m = max_row_len(rows.drop_last());
        if rows.last().len() > m {
            rows.last().len()
        } else {
            m
        }
    }
}

pub open spec fn col_count(t: TableV) -> nat {
    let m = max_row_len(t.rows);
    if t.headers.len() > m {
        t.headers.len()
    } else {
        m
    }
}

pub open spec fn caption_spec(t: TableV) -> Seq<char> {
    match t.caption {
        Some(c) => "**"@ + escape_inline_spec(c) + "**\n\n"@,
        None => Seq::empty(),
    }
}

/// Whether the first row stands in for missing headers.
pub open spec fn promotes_first_row(t: TableV) -> bool {
    t.headers.len() == 0 && t.rows.len() > 0
}

/// The header row: the headers, or the first row when there are none.
pub open spec fn header_row(t: TableV) -> Seq<Seq<char>> {
    if promotes_first_row(t) {
        t.rows[0]
    } else {
        t.headers
    }
}

/// The body rows: every row, or every row after the first when it became the header.
pub open spec fn body_rows(t: TableV) -> Seq<Seq<Seq<char>>> {
    if promotes_first_row(t) {
        t.rows.drop_first()
    } else {
        t.rows
    }
}

/// Optional bold caption, then (when there is at least one column) the header
/// row (the first row when the headers are empty), the `---` separator row and
/// the body rows, all padded to the widest row.
pub open spec fn render_table_spec(t: TableV) -> Seq<char> {
    let n = col_count(t);
    if n == 0 {
        caption_spec(t)
    } else {
        caption_spec(t) + cells_line(pad_row_spec(header_row(t), n)) + sep_line(n) + rows_text(body_rows(t), n)
    }
}

pub open spec fn marker_spec(ordered: bool, i: nat) -> Seq<char> {
    if ordered {
        decimal(i + 1) + "."@
    } else {
        "-"@
    }
}

/// The first `k` items of a list at nesting `depth`: each item is a line
/// `indent marker content`, followed by its nested list one level deeper.
pub open spec fn render_list_spec(ordered: bool, items: Seq<ListItemV>, depth: nat, k: nat) -> Seq<char>
    decreases items, k,
{
    if k == 0 || k > items.len() {
        Seq::empty()
    } else {
        let i = (k - 1) as nat;
        let it = items[i as int];
        render_list_spec(ordered, items, depth, i) + repeat_char(' ', 2 * depth) + marker_spec(
            ordered,
            i,
        ) + " "@ + render_inlines_spec(it.content) + "\n"@ + match it.sublist {
            Some(sub) => render_list_spec(sub.ordered, sub.items, depth + 1, sub.items.len()),
            None => Seq::empty(),
        }
    }
}

pub open spec fn math_spec(latex: Seq<char>, display: bool) -> Seq<char> {
    if display {
        "$$\n"@ + trim(latex) + "\n$$\n"@
    } else {
        "$"@ + trim(latex) + "$\n"@
    }
}

pub open spec fn code_block_spec(lang: Option<Seq<char>>, code: Seq<char>) -> Seq<char> {
    let f = pick_fence_spec(code);
    f + opt_or_empty(lang) + "\n"@ + trim_end_char(code, '\n') + "\n"@ + f + "\n"@
}

pub open spec fn paragraph_spec(v: Seq<InlineV>) -> Seq<char> {
    let s = render_inlines_spec(v);
    if is_blank(s) {
        Seq::empty()
    } else {
        s + "\n"@
    }
}

/// The Markdown of one block.
pub open spec fn render_block_spec(b: BlockV) -> Seq<char> {
    match b {
        BlockV::Heading { level, text } => repeat_char('#', clamp_level(level)) + " "@ + collapse(text)
            + "\n"@,
        BlockV::Paragraph(v) => paragraph_spec(v),
        BlockV::Table(t) => render_table_spec(t),
        BlockV::List { ordered, items } => render_list_spec(ordered, items, 0, items.len()),
        BlockV::CodeBlock { lang, code } => code_block_spec(lang, code),
        BlockV::Quote(v) => quote_spec(render_inlines_spec(v)),
        BlockV::HorizontalRule => "---\n"@,
        BlockV::Image { alt, data } => "!["@ + escape_inline_spec(alt) + "]("@ + image_ref_spec(data)
            + ")\n"@,
        BlockV::Math { latex, display } => math_spec(latex, display),
        BlockV::PageBreak => "\n---\n"@,
        BlockV::Footnote { id, content } => "[^"@ + id + "]: "@ + render_inlines_spec(content) + "\n"@,
    }
}

/// Each block's Markdown followed by a newline.
pub open spec fn render_blocks_spec(bs: Seq<BlockV>) -> Seq<char>
    decreases bs.len(),
{
    if bs.len() == 0 {
        Seq::empty()
    } else {
        render_blocks_spec(bs.drop_last()) + render_block_spec(bs.last()) + "\n"@
    }
}

/// The lower-case name of a source format (its `Debug` name lower-cased).
pub open spec fn source_format_name(f: SourceFormat) -> Seq<char> {
    match f {
        SourceFormat::Docx => "docx"@,
        SourceFormat::Pptx => "pptx"@,
        SourceFormat::Xlsx => "xlsx"@,
        SourceFormat::Hwp => "hwp"@,
        SourceFormat::Hwpx => "hwpx"@,
        SourceFormat::Pdf => "pdf"@,
        SourceFormat::Html => "html"@,
        SourceFormat::Markdown => "markdown"@,
        SourceFormat::Epub => "epub"@,
        SourceFormat::Rtf => "rtf"@,
        SourceFormat::Odt => "odt"@,
        SourceFormat::Unknown => "unknown"@,
    }
}

/// What `chrono::DateTime::<Utc>::to_rfc3339` prints for the instant
/// (`None` when chrono cannot represent it).
pub uninterp spec fn chrono_rfc3339(seconds: i64, nanos: u32) -> Option<Seq<char>>;

pub open spec fn created_at_line(c: Option<Timestamp>) -> Seq<char> {
    match c {
        Some(ts) => match chrono_rfc3339(ts.seconds, ts.nanos) {
            Some(r) => "created_at: "@ + r + "\n"@,
            None => Seq::empty(),
        },
        None => Seq::empty(),
    }
}

pub open spec fn page_count_line(p: Option<usize>) -> Seq<char> {
    match p {
        Some(n) => "page_count: "@ + decimal(n as nat) + "\n"@,
        None => Seq::empty(),
    }
}

pub open spec fn language_line(l: Option<Seq<char>>) -> Seq<char> {
    match l {
        Some(s) => "language: "@ + yaml_scalar_spec(s) + "\n"@,
        None => Seq::empty(),
    }
}

/// The YAML frontmatter block.
pub open spec fn frontmatter_spec(m: MetadataV) -> Seq<char> {
    "---\n"@ + "title: "@ + yaml_scalar_spec(opt_or_empty(m.title)) + "\n"@ + "author: "@
        + yaml_scalar_spec(opt_or_empty(m.author)) + "\n"@ + "source_format: "@ + source_format_name(
        m.source_format,
    ) + "\n"@ + "original_filename: "@ + yaml_scalar_spec(m.original_filename) + "\n"@
        + page_count_line(m.page_count) + language_line(m.language) + created_at_line(m.created_at)
        + "---\n\n"@
}

/// The whole document: frontmatter and blocks, with the trailing newlines
/// reduced to exactly one.
pub open spec fn render_spec(d: DocumentV) -> Seq<char> {
    trim_end_char(frontmatter_spec(d.metadata) + render_blocks_spec(d.blocks), '\n').push('\n')
}


// ── implementation ──────────────────────────────────────────────

/// `s.replace('|', "\\|")`.
fn escape_inline(s: &str) -> (r: String)
    ensures
        r@ == escape_inline_spec(s@),
{
    let cs = chars_of(s);
    let mut out = String::new();
    let mut i: usize = 0;
    while i < cs.len()
        invariant
            cs@ == s@,
            i <= cs@.len(),
            out@ == map_chars(cs@.take(i as int), escape_pipe_fn()),
        decreases cs@.len() - i,
    {
        proof {
            lemma_map_chars_step(cs@, i as int, escape_pipe_fn());
        }
        let c = cs[i];
        if c == '|' {
            push_char(&mut out, '\\');
            push_char(&mut out, '|');
        } else {
            push_char(&mut out, c);
        }
        i = i + 1;
        assert(out@ =~= map_chars(cs@.take(i as int), escape_pipe_fn()));
    }
    assert(cs@.take(cs@.len() as int) =~= cs@);
    out
}

/// Collapsed whitespace, then `|` escaped.
fn escape_cell(s: &str) -> (r: String)
    ensures
        r@ == escape_cell_spec(s@),
{
    let c = collapse_ws(s);
    escape_inline(c.as_str())
}

fn yaml_scalar(s: &str) -> (r: String)
    ensures
        r@ == yaml_scalar_spec(s@),
{
    let cs = chars_of(s);
    if cs.len() == 0 {
        let mut out = String::new();
        push_char(&mut out, '"');
        push_char(&mut out, '"');
        assert(out@ =~= seq!['"', '"']);
        return out;
    }
    let mut needs = false;
    let mut i: usize = 0;
    while i < cs.len()
        invariant
            cs@ == s@,
            i <= cs@.len(),
            needs == (exists|j: int|
                0 <= j < i && (cs@[j] == ':' || cs@[j] == '#' || cs@[j] == '"' || cs@[j] == '\n' || cs@[j]
                    == '\r')),
        decreases cs@.len() - i,
    {
        let c = cs[i];
        if c == ':' || c == '#' || c == '"' || c == '\n' || c == '\r' {
            needs = true;
        }
        i = i + 1;
    }
    proof {
        if needs {
            let j = choose|j: int|
                0 <= j < cs@.len() && (cs@[j] == ':' || cs@[j] == '#' || cs@[j] == '"' || cs@[j] == '\n'
                    || cs@[j] == '\r');
            assert(cs@[j] == ':' ==> cs@.contains(':'));
            assert(cs@[j] == '#' ==> cs@.contains('#'));
            assert(cs@[j] == '"' ==> cs@.contains('"'));
            assert(cs@[j] == '\n' ==> cs@.contains('\n'));
            assert(cs@[j] == '\r' ==> cs@.contains('\r'));
        }
        if cs@.contains(':') || cs@.contains('#') || cs@.contains('"') || cs@.contains('\n') || cs@.contains(
            '\r',
        ) {
            assert(needs);
        }
    }
    let first = cs[0];
    let last = cs[cs.len() - 1];
    if is_whitespace_char(first) || is_whitespace_char(last) || first == '-' || first == '?' || first
        == '*' || first == '&' || first == '!' || first == '%' || first == '@' || first == '`'
        || first == '[' || first == '{' || first == '>' || first == '|' {
        needs = true;
    }
    if !needs {
        assert(!yaml_needs_quote(s@));
        return s.to_owned();
    }
    let mut out = String::new();
    push_char(&mut out, '"');
    let mut k: usize = 0;
    while k < cs.len()
        invariant
            cs@ == s@,
            k <= cs@.len(),
            out@ == seq!['"'] + map_chars(cs@.take(k as int), yaml_escape_fn()),
        decreases cs@.len() - k,
    {
        proof {
            lemma_map_chars_step(cs@, k as int, yaml_escape_fn());
        }
        let c = cs[k];
        if c == '\\' {
            push_char(&mut out, '\\');
            push_char(&mut out, '\\');
        } else if c == '"' {
            push_char(&mut out, '\\');
            push_char(&mut out, '"');
        } else if c == '\n' {
            push_char(&mut out, '\\');
            push_char(&mut out, 'n');
        } else if c == '\r' {
            push_char(&mut out, '\\');
            push_char(&mut out, 'r');
        } else {
            push_char(&mut out, c);
        }
        k = k + 1;
        assert(out@ =~= seq!['"'] + map_chars(cs@.take(k as int), yaml_escape_fn()));
    }
    assert(cs@.take(cs@.len() as int) =~= cs@);
    push_char(&mut out, '"');
    out
}

fn is_whitespace_char(c: char) -> (r: bool)
    ensures
        r == is_ws(c),
{
    crate::text::is_whitespace(c)
}

fn pick_fence(code: &str) -> (r: String)
    ensures
        r@ == pick_fence_spec(code@),
{
    let cs = chars_of(code);
    let mut best: usize = 0;
    let mut cur: usize = 0;
    let mut i: usize = 0;
    while i < cs.len()
        invariant
            cs@ == code@,
            i <= cs@.len(),
            cur == backtick_run_end(cs@.take(i as int)),
            best == max_backtick_run(cs@.take(i as int)),
            cur <= i,
            best <= i,
        decreases cs@.len() - i,
    {
        assert(cs@.take(i + 1).drop_last() =~= cs@.take(i as int));
        if cs[i] == '`' {
            cur = cur + 1;
        } else {
            cur = 0;
        }
        if cur > best {
            best = cur;
        }
        i = i + 1;
    }
    assert(cs@.take(cs@.len() as int) =~= cs@);
    let mut out = String::new();
    let mut k: usize = 0;
    let n: usize = if best < 3 { 3 } else { best };
    while k < n
        invariant
            k <= n,
            out@ == repeat_char('`', k as nat),
        decreases n - k,
    {
        push_char(&mut out, '`');
        k = k + 1;
    }
    if best >= 3 {
        push_char(&mut out, '`');
    }
    out
}

fn render_inline(inline: &Inline) -> (r: String)
    ensures
        r@ == render_inline_spec(inline@),
    decreases inline,
{
    match inline {
        Inline::Text(s) => escape_inline(s.as_str()),
        Inline::Bold(inner) => {
            let mut out = "**".to_owned();
            let x = render_inline(inner);
            out.append(x.as_str());
            out.append("**");
            out
        },
        Inline::Italic(inner) => {
            let mut out = "*".to_owned();
            let x = render_inline(inner);
            out.append(x.as_str());
            out.append("*");
            out
        },
        Inline::Strike(inner) => {
            let mut out = "~~".to_owned();
            let x = render_inline(inner);
            out.append(x.as_str());
            out.append("~~");
            out
        },
        Inline::Code(s) => {
            let mut out = "`".to_owned();
            out.append(s.as_str());
            out.append("`");
            out
        },
        Inline::Link { text, url } => {
            let mut out = "[".to_owned();
            let t = escape_inline(text.as_str());
            out.append(t.as_str());
            out.append("](");
            out.append(url.as_str());
            out.append(")");
            out
        },
        Inline::LineBreak => "  \n".to_owned(),
    }
}

pub proof fn lemma_inlines_view_index(v: Seq<Inline>, i: int)
    requires
        0 <= i < v.len(),
    ensures
        inlines_view(v).len() == v.len(),
        inlines_view(v)[i] == v[i]@,
        inlines_view(v.take(i + 1)) == inlines_view(v.take(i)).push(v[i]@),
{
    assert(inlines_view(v.take(i + 1)) =~= inlines_view(v.take(i)).push(v[i]@));
}

fn render_inlines(v: &Vec<Inline>) -> (r: String)
    ensures
        r@ == render_inlines_spec(inlines_view(v@)),
{
    let mut out = String::new();
    let mut i: usize = 0;
    while i < v.len()
        invariant
            i <= v@.len(),
            out@ == render_inlines_spec(inlines_view(v@.take(i as int))),
        decreases v@.len() - i,
    {
        proof {
            lemma_inlines_view_index(v@, i as int);
            assert(inlines_view(v@.take(i + 1)).drop_last() =~= inlines_view(v@.take(i as int)));
        }
        let x = render_inline(&v[i]);
        out.append(x.as_str());
        i = i + 1;
    }
    assert(v@.take(v@.len() as int) =~= v@);
    out
}

fn image_ref(d: &ImageData) -> (r: String)
    ensures
        r@ == image_ref_spec(d@),
{
    match d {
        ImageData::Base64 { mime, data } => {
            let mut out = "data:".to_owned();
            out.append(mime.as_str());
            out.append(";base64,");
            out.append(data.as_str());
            out
        },
        ImageData::Path(p) => p.clone(),
        ImageData::Url(u) => u.clone(),
    }
}


/// `chrono::DateTime::<Utc>::from_timestamp(seconds, nanos)` printed by
/// `to_rfc3339`; the contract only names the result.
#[verifier::external_body]
fn rfc3339(seconds: i64, nanos: u32) -> (r: Option<String>)
    ensures
        opt_str_view(r) == chrono_rfc3339(seconds, nanos),
{
    chrono::DateTime::from_timestamp(seconds, nanos).map(|d| d.to_rfc3339())
}


pub proof fn lemma_max_row_len(rows: Seq<Seq<Seq<char>>>, i: int)
    requires
        0 <= i < rows.len(),
    ensures
        rows[i].len() <= max_row_len(rows),
    decreases rows.len(),
{
    if i < rows.len() - 1 {
        lemma_max_row_len(rows.drop_last(), i);
    }
}

fn max_row_len_exec(rows: &Vec<Vec<String>>) -> (m: usize)
    ensures
        m as nat == max_row_len(rows.deep_view()),
{
    let mut m: usize = 0;
    let mut i: usize = 0;
    while i < rows.len()
        invariant
            i <= rows@.len(),
            m as nat == max_row_len(rows.deep_view().take(i as int)),
        decreases rows@.len() - i,
    {
        assert(rows.deep_view().take(i + 1).drop_last() =~= rows.deep_view().take(i as int));
        if rows[i].len() > m {
            m = rows[i].len();
        }
        i = i + 1;
    }
    assert(rows.deep_view().take(rows@.len() as int) =~= rows.deep_view());
    m
}

fn row_line(row: &Vec<String>, n: usize) -> (r: String)
    requires
        row@.len() <= n,
    ensures
        r@ == cells_line(pad_row_spec(row.deep_view(), n as nat)),
{
    let ghost cells = escaped_cells(pad_row_spec(row.deep_view(), n as nat));
    let mut joined = String::new();
    let mut j: usize = 0;
    while j < n
        invariant
            row@.len() <= n,
            j <= n,
            cells == escaped_cells(pad_row_spec(row.deep_view(), n as nat)),
            cells.len() == n,
            joined@ == join(cells.take(j as int), " | "@),
        decreases n - j,
    {
        proof {
            lemma_join_step(cells, " | "@, j as int);
        }
        let e = if j < row.len() {
            escape_cell(row[j].as_str())
        } else {
            let empty = String::new();
            let e = escape_cell(empty.as_str());
            e
        };
        assert(e@ == cells[j as int]);
        if j > 0 {
            joined.append(" | ");
        }
        joined.append(e.as_str());
        j = j + 1;
    }
    assert(cells.take(n as int) =~= cells);
    let mut out = "| ".to_owned();
    out.append(joined.as_str());
    out.append(" |\n");
    out
}

fn sep_line_exec(n: usize) -> (r: String)
    ensures
        r@ == sep_line(n as nat),
{
    let ghost cells = dashes(n as nat);
    let mut joined = String::new();
    let mut j: usize = 0;
    while j < n
        invariant
            j <= n,
            cells == dashes(n as nat),
            joined@ == join(cells.take(j as int), " | "@),
        decreases n - j,
    {
        proof {
            lemma_join_step(cells, " | "@, j as int);
        }
        if j > 0 {
            joined.append(" | ");
        }
        joined.append("---");
        j = j + 1;
    }
    assert(cells.take(n as int) =~= cells);
    let mut out = "| ".to_owned();
    out.append(joined.as_str());
    out.append(" |\n");
    out
}

fn render_table(t: &Table) -> (r: String)
    ensures
        r@ == render_table_spec(t@),
{
    let mut out = String::new();
    match &t.caption {
        Some(cap) => {
            out.append("**");
            let e = escape_inline(cap.as_str());
            out.append(e.as_str());
            out.append("**\n\n");
        },
        None => {},
    }
    assert(out@ == caption_spec(t@));
    let m = max_row_len_exec(&t.rows);
    let n = if t.headers.len() > m {
        t.headers.len()
    } else {
        m
    };
    assert(n as nat == col_count(t@));
    if n == 0 {
        return out;
    }
    let ghost rv = t.rows.deep_view();
    let promote = t.headers.len() == 0 && t.rows.len() > 0;
    let start: usize = if promote { 1 } else { 0 };
    let h = if promote {
        proof {
            lemma_max_row_len(rv, 0);
        }
        assert(rv[0] == t.rows@[0].deep_view());
        row_line(&t.rows[0], n)
    } else {
        row_line(&t.headers, n)
    };
    out.append(h.as_str());
    let sl = sep_line_exec(n);
    out.append(sl.as_str());
    let ghost prefix = out@;
    let mut i: usize = start;
    assert(rv.subrange(start as int, start as int) =~= Seq::<Seq<Seq<char>>>::empty());
    while i < t.rows.len()
        invariant
            start <= i <= t.rows@.len(),
            rv == t.rows.deep_view(),
            n as nat >= max_row_len(rv),
            out@ == prefix + rows_text(rv.subrange(start as int, i as int), n as nat),
        decreases t.rows@.len() - i,
    {
        proof {
            lemma_max_row_len(rv, i as int);
            assert(rv.subrange(start as int, i + 1).drop_last() =~= rv.subrange(start as int, i as int));
            assert(rv.subrange(start as int, i + 1).last() == rv[i as int]);
        }
        let l = row_line(&t.rows[i], n);
        out.append(l.as_str());
        i = i + 1;
    }
    assert(rv.subrange(start as int, t.rows@.len() as int) =~= body_rows(t@));
    assert(t.rows.deep_view().take(t.rows@.len() as int) =~= t.rows.deep_view());
    out
}


pub proof fn lemma_list_items_view(s: Seq<ListItem>)
    ensures
        list_items_view(s).len() == s.len(),
        forall|i: int| 0 <= i < s.len() ==> #[trigger] list_items_view(s)[i] == s[i]@,
    decreases s.len(),
{
    if s.len() > 0 {
        lemma_list_items_view(s.drop_last());
    }
}

#[verifier::rlimit(40)]
fn render_list(ordered: bool, items: &Vec<ListItem>, indent: &str, Ghost(depth): Ghost<nat>) -> (r:
    String)
    requires
        indent@ == repeat_char(' ', 2 * depth),
    ensures
        r@ == render_list_spec(ordered, list_items_view(items@), depth, items@.len()),
    decreases items@,
{
    let ghost lv = list_items_view(items@);
    proof {
        lemma_list_items_view(items@);
    }
    let mut out = String::new();
    let mut i: usize = 0;
    while i < items.len()
        invariant
            i <= items@.len(),
            lv == list_items_view(items@),
            lv.len() == items@.len(),
            forall|k: int| 0 <= k < items@.len() ==> #[trigger] lv[k] == items@[k]@,
            indent@ == repeat_char(' ', 2 * depth),
            out@ == render_list_spec(ordered, lv, depth, i as nat),
        decreases items@.len() - i,
    {
        let it = &items[i];
        let ghost itv = lv[i as int];
        assert(itv == it@);
        let mut line = indent.to_owned();
        if ordered {
            let d = decimal_string(i + 1);
            line.append(d.as_str());
            line.append(".");
        } else {
            line.append("-");
        }
        line.append(" ");
        let c = render_inlines(&it.content);
        line.append(c.as_str());
        line.append("\n");
        assert(line@ =~= repeat_char(' ', 2 * depth) + marker_spec(ordered, i as nat) + " "@
            + render_inlines_spec(itv.content) + "\n"@);
        let sub_text = match &it.sublist {
            Some(sub) => {
                let mut ind2 = indent.to_owned();
                push_char(&mut ind2, ' ');
                push_char(&mut ind2, ' ');
                proof {
                    assert(repeat_char(' ', 2 * (depth + 1)) == repeat_char(' ', 2 * depth).push(
                        ' ',
                    ).push(' ')) by {
                        reveal_with_fuel(repeat_char, 3);
                    }
                    assert(decreases_to!(items@ => items@[i as int]));
                    lemma_list_items_view(sub.items@);
                }
                let x = render_list(sub.ordered, &sub.items, ind2.as_str(), Ghost(depth + 1));
                x
            },
            None => String::new(),
        };
        assert(sub_text@ == match itv.sublist {
            Some(sv) => render_list_spec(sv.ordered, sv.items, depth + 1, sv.items.len()),
            None => Seq::<char>::empty(),
        });
        let ghost before = out@;
        out.append(line.as_str());
        out.append(sub_text.as_str());
        i = i + 1;
        assert(out@ =~= render_list_spec(ordered, lv, depth, i as nat));
    }
    out
}

fn repeat_hash(n: u8) -> (r: String)
    ensures
        r@ == repeat_char('#', n as nat),
{
    let mut out = String::new();
    let mut k: u8 = 0;
    while k < n
        invariant
            k <= n,
            out@ == repeat_char('#', k as nat),
        decreases n - k,
    {
        push_char(&mut out, '#');
        k = k + 1;
    }
    out
}

fn render_quote(s: &str) -> (r: String)
    ensures
        r@ == quote_spec(s@),
{
    let cs = chars_of(s);
    let mut pieces: Vec<Vec<char>> = Vec::new();
    let ghost mut pv: Seq<Seq<char>> = Seq::empty();
    let mut i: usize = 0;
    while i < cs.len()
        invariant
            cs@ == s@,
            i <= cs@.len(),
            pv == newline_pieces(cs@.take(i as int)),
            pv.len() == pieces@.len(),
            forall|k: int| 0 <= k < pieces@.len() ==> #[trigger] pieces@[k]@ == pv[k],
            forall|k: int| 0 <= k < pieces@.len() ==> #[trigger] pieces@[k]@.len() > 0,
        decreases cs@.len() - i,
    {
        let c = cs[i];
        let ghost old_pv = pv;
        assert(cs@.take(i + 1).drop_last() =~= cs@.take(i as int));
        let n = pieces.len();
        if n > 0 && pieces[n - 1][pieces[n - 1].len() - 1] != '\n' {
            let mut last = pieces.pop().unwrap();
            last.push(c);
            pieces.push(last);
            proof {
                pv = old_pv.update(old_pv.len() - 1, old_pv.last().push(c));
            }
        } else {
            let mut np: Vec<char> = Vec::new();
            np.push(c);
            pieces.push(np);
            proof {
                pv = old_pv.push(seq![c]);
                assert(np@ =~= seq![c]);
            }
        }
        i = i + 1;
    }
    assert(cs@.take(cs@.len() as int) =~= cs@);
    let ghost ls = quote_lines(lines(s@));
    let mut out = String::new();
    let mut k: usize = 0;
    while k < pieces.len()
        invariant
            cs@ == s@,
            pv == newline_pieces(s@),
            pv.len() == pieces@.len(),
            forall|k: int| 0 <= k < pieces@.len() ==> #[trigger] pieces@[k]@ == pv[k],
            ls == quote_lines(lines(s@)),
            ls.len() == pieces@.len(),
            k <= pieces@.len(),
            out@ == join(ls.take(k as int), "\n"@),
        decreases pieces@.len() - k,
    {
        proof {
            lemma_join_step(ls, "\n"@, k as int);
        }
        let p = &pieces[k];
        let mut e = p.len();
        if e > 0 && p[e - 1] == '\n' {
            e = e - 1;
            if e > 0 && p[e - 1] == '\r' {
                e = e - 1;
            }
        }
        let line = string_of(&p.as_slice()[0..e]);
        proof {
            assert(line@ =~= strip_line_end(pv[k as int]));
        }
        if k > 0 {
            out.append("\n");
        }
        out.append("> ");
        out.append(line.as_str());
        k = k + 1;
    }
    assert(ls.take(pieces@.len() as int) =~= ls);
    out.append("\n");
    out
}

fn render_code_block(lang: &Option<String>, code: &String) -> (r: String)
    ensures
        r@ == code_block_spec(opt_str_view(*lang), code@),
{
    let f = pick_fence(code.as_str());
    let mut out = f.clone();
    match lang {
        Some(l) => out.append(l.as_str()),
        None => {},
    }
    out.append("\n");
    let cs = chars_of(code.as_str());
    let n = trim_end_char_len(&cs, '\n');
    let body = string_of(&cs.as_slice()[0..n]);
    assert(body@ =~= cs@.take(n as int));
    out.append(body.as_str());
    out.append("\n");
    out.append(f.as_str());
    out.append("\n");
    out
}

fn render_paragraph(v: &Vec<Inline>) -> (r: String)
    ensures
        r@ == paragraph_spec(inlines_view(v@)),
{
    let mut s = render_inlines(v);
    if is_blank_str(s.as_str()) {
        String::new()
    } else {
        s.append("\n");
        s
    }
}

fn render_block(block: &Block) -> (r: String)
    ensures
        r@ == render_block_spec(block@),
{
    let r = match block {
        Block::Heading { level, text } => {
            let lvl: u8 = if *level < 1 {
                1
            } else if *level > 6 {
                6
            } else {
                *level
            };
            let mut out = repeat_hash(lvl);
            out.append(" ");
            let t = collapse_ws(text.as_str());
            out.append(t.as_str());
            out.append("\n");
            out
        },
        Block::Paragraph(v) => render_paragraph(v),
        Block::Table(t) => render_table(t),
        Block::List { ordered, items } => {
            let ind = String::new();
            proof {
                assert(ind@ =~= repeat_char(' ', 2 * 0));
                lemma_list_items_view(items@);
            }
            render_list(*ordered, items, ind.as_str(), Ghost(0))
        },
        Block::CodeBlock { lang, code } => render_code_block(lang, code),
        Block::Quote(v) => {
            let s = render_inlines(v);
            render_quote(s.as_str())
        },
        Block::HorizontalRule => "---\n".to_owned(),
        Block::Image { alt, data } => {
            let mut out = "![".to_owned();
            let a = escape_inline(alt.as_str());
            out.append(a.as_str());
            out.append("](");
            let r = image_ref(data);
            out.append(r.as_str());
            out.append(")\n");
            out
        },
        Block::Math { latex, display } => {
            let t = trim_string(latex.as_str());
            if *display {
                let mut out = "$$\n".to_owned();
                out.append(t.as_str());
                out.append("\n$$\n");
                out
            } else {
                let mut out = "$".to_owned();
                out.append(t.as_str());
                out.append("$\n");
                out
            }
        },
        Block::PageBreak => "\n---\n".to_owned(),
        Block::Footnote { id, content } => {
            let mut out = "[^".to_owned();
            out.append(id.as_str());
            out.append("]: ");
            let c = render_inlines(content);
            out.append(c.as_str());
            out.append("\n");
            out
        },
    };
    proof {
        match block {
            Block::Heading { .. } => assert(r@ == render_block_spec(block@)),
            Block::Paragraph(..) => assert(r@ == render_block_spec(block@)),
            Block::Table(..) => assert(r@ == render_block_spec(block@)),
            Block::List { .. } => assert(r@ == render_block_spec(block@)),
            Block::CodeBlock { .. } => assert(r@ == render_block_spec(block@)),
            Block::Quote(..) => assert(r@ == render_block_spec(block@)),
            Block::Image { .. } => assert(r@ == render_block_spec(block@)),
            Block::Math { .. } => assert(r@ == render_block_spec(block@)),
            Block::Footnote { .. } => assert(r@ == render_block_spec(block@)),
            _ => {},
        }
    }
    r
}


fn source_format_name_exec(f: SourceFormat) -> (r: &'static str)
    ensures
        r@ == source_format_name(f),
{
    match f {
        SourceFormat::Docx => "docx",
        SourceFormat::Pptx => "pptx",
        SourceFormat::Xlsx => "xlsx",
        SourceFormat::Hwp => "hwp",
        SourceFormat::Hwpx => "hwpx",
        SourceFormat::Pdf => "pdf",
        SourceFormat::Html => "html",
        SourceFormat::Markdown => "markdown",
        SourceFormat::Epub => "epub",
        SourceFormat::Rtf => "rtf",
        SourceFormat::Odt => "odt",
        SourceFormat::Unknown => "unknown",
    }
}

fn opt_str_or_empty(o: &Option<String>) -> (r: String)
    ensures
        r@ == opt_or_empty(opt_str_view(*o)),
{
    match o {
        Some(s) => s.clone(),
        None => String::new(),
    }
}

fn render_frontmatter(meta: &DocumentMetadata) -> (r: String)
    ensures
        r@ == frontmatter_spec(meta@),
{
    let mut fm = "---\n".to_owned();
    fm.append("title: ");
    let t = opt_str_or_empty(&meta.title);
    let ty = yaml_scalar(t.as_str());
    fm.append(ty.as_str());
    fm.append("\n");
    fm.append("author: ");
    let a = opt_str_or_empty(&meta.author);
    let ay = yaml_scalar(a.as_str());
    fm.append(ay.as_str());
    fm.append("\n");
    fm.append("source_format: ");
    fm.append(source_format_name_exec(meta.source_format));
    fm.append("\n");
    fm.append("original_filename: ");
    let fy = yaml_scalar(meta.original_filename.as_str());
    fm.append(fy.as_str());
    fm.append("\n");
    match meta.page_count {
        Some(p) => {
            fm.append("page_count: ");
            let d = decimal_string(p);
            fm.append(d.as_str());
            fm.append("\n");
        },
        None => {},
    }
    match &meta.language {
        Some(l) => {
            fm.append("language: ");
            let ly = yaml_scalar(l.as_str());
            fm.append(ly.as_str());
            fm.append("\n");
        },
        None => {},
    }
    match meta.created_at {
        Some(ts) => match rfc3339(ts.seconds, ts.nanos) {
            Some(r) => {
                fm.append("created_at: ");
                fm.append(r.as_str());
                fm.append("\n");
            },
            None => {},
        },
        None => {},
    }
    fm.append("---\n\n");
    fm
}

/// Renders the IR as vector-store-friendly Markdown.
pub struct MarkdownRenderer;

impl MarkdownRenderer {
    /// The whole document with its YAML frontmatter; the output ends with exactly one newline.
    pub fn render(doc: &Document) -> (r: String)
        ensures
            r@ == render_spec(doc@),
    {
        let mut out = render_frontmatter(&doc.metadata);
        let ghost fm = out@;
        let mut i: usize = 0;
        while i < doc.blocks.len()
            invariant
                i <= doc.blocks@.len(),
                out@ == fm + render_blocks_spec(blocks_view(doc.blocks@.take(i as int))),
            decreases doc.blocks@.len() - i,
        {
            assert(blocks_view(doc.blocks@.take(i + 1)).drop_last() =~= blocks_view(
                doc.blocks@.take(i as int),
            ));
            let b = render_block(&doc.blocks[i]);
            out.append(b.as_str());
            out.append("\n");
            i = i + 1;
        }
        assert(doc.blocks@.take(doc.blocks@.len() as int) =~= doc.blocks@);
        let cs = chars_of(out.as_str());
        let n = trim_end_char_len(&cs, '\n');
        let mut r = string_of(&cs.as_slice()[0..n]);
        assert(r@ =~= cs@.take(n as int));
        push_char(&mut r, '\n');
        r
    }

    /// The body blocks only, each followed by a newline; no frontmatter.
    pub fn render_blocks(blocks: &[Block]) -> (r: String)
        ensures
            r@ == render_blocks_spec(blocks_view(blocks@)),
    {
        let mut out = String::new();
        let mut i: usize = 0;
        while i < blocks.len()
            invariant
                i <= blocks@.len(),
                out@ == render_blocks_spec(blocks_view(blocks@.take(i as int))),
            decreases blocks@.len() - i,
        {
            assert(blocks_view(blocks@.take(i + 1)).drop_last() =~= blocks_view(blocks@.take(i as int)));
            let b = render_block(&blocks[i]);
            out.append(b.as_str());
            out.append("\n");
            i = i + 1;
        }
        assert(blocks@.take(blocks@.len() as int) =~= blocks@);
        out
    }
}

/// The Markdown of a single block followed by a newline
/// (`render_blocks` of a one-block slice).
pub fn render_one(block: &Block) -> (r: String)
    ensures
        r@ == render_blocks_spec(seq![block@]),
{
    let mut out = render_block(block);
    out.append("\n");
    let ghost one = seq![block@];
    assert(one.drop_last() =~= Seq::<BlockV>::empty());
    assert(one.last() == block@);
    assert(render_blocks_spec(one) == render_blocks_spec(one.drop_last()) + render_block_spec(one.last()) + "\n"@);
    assert(out@ =~= render_blocks_spec(one));
    out
}

// ── laws ────────────────────────────────────────────────────────

/// Rendering a run of blocks is rendering its parts one after the other.
pub proof fn law_render_blocks_concat(a: Seq<BlockV>, b: Seq<BlockV>)
    ensures
        render_blocks_spec(a + b) == render_blocks_spec(a) + render_blocks_spec(b),
    decreases b.len(),
{
    if b.len() == 0 {
        assert(a + b =~= a);
    } else {
        law_render_blocks_concat(a, b.drop_last());
        assert((a + b).drop_last() =~= a + b.drop_last());
        assert((a + b).last() == b.last());
    }
}

proof fn lemma_list_prefix(ordered: bool, items: Seq<ListItemV>, it: ListItemV, depth: nat, k: nat)
    requires
        k <= items.len(),
    ensures
        render_list_spec(ordered, items.push(it), depth, k) == render_list_spec(ordered, items, depth, k),
    decreases k,
{
    if k > 0 {
        lemma_list_prefix(ordered, items, it, depth, (k - 1) as nat);
        assert(items.push(it)[k - 1] == items[k - 1]);
    }
}

/// A list's Markdown grows by one line per item: appending an item (without
/// a nested list) appends its marker, a space, the item's inline Markdown
/// and a newline.  The marker of the item at index `n` is the numeral of
/// `n + 1` followed by `.` in an ordered list, `-` in a bullet list; an
/// empty list renders as nothing.
pub proof fn law_list_item_marker(ordered: bool, items: Seq<ListItemV>, it: ListItemV)
    requires
        it.sublist is None,
    ensures
        render_block_spec(BlockV::List { ordered, items: Seq::empty() }) == Seq::<char>::empty(),
        render_block_spec(BlockV::List { ordered, items: items.push(it) }) == render_block_spec(
            BlockV::List { ordered, items },
        ) + (if ordered {
            decimal(items.len() + 1) + "."@
        } else {
            "-"@
        }) + " "@ + render_inlines_spec(it.content) + "\n"@,
{
    lemma_list_prefix(ordered, items, it, 0, items.len());
    assert(repeat_char(' ', 0) =~= Seq::<char>::empty()) by {
        reveal_with_fuel(repeat_char, 1);
    }
    let n: nat = items.push(it).len();
    assert(items.push(it)[n - 1] == it);
    assert(render_list_spec(ordered, items.push(it), 0, n) == render_list_spec(ordered, items.push(it), 0, (n - 1) as nat)
        + repeat_char(' ', 0) + marker_spec(ordered, (n - 1) as nat) + " "@ + render_inlines_spec(it.content) + "\n"@ + Seq::<char>::empty());
    assert(render_list_spec(ordered, items.push(it), 0, n) =~= render_list_spec(ordered, items, 0, items.len())
        + (if ordered { decimal(items.len() + 1) + "."@ } else { "-"@ }) + " "@ + render_inlines_spec(it.content) + "\n"@);
}

proof fn lemma_trim_end_char_not_last(s: Seq<char>, c: char)
    ensures
        trim_end_char(s, c).len() > 0 ==> trim_end_char(s, c).last() != c,
        trim_end_char(s, c).len() <= s.len(),
        forall|i: int| 0 <= i < trim_end_char(s, c).len() ==> #[trigger] trim_end_char(s, c)[i] == s[i],
        forall|i: int| 0 <= i < s.len() && #[trigger] s[i] != c ==> i < trim_end_char(s, c).len(),
    decreases s.len(),
{
    if s.len() > 0 && s.last() == c {
        lemma_trim_end_char_not_last(s.drop_last(), c);
        assert forall|i: int| 0 <= i < s.len() && #[trigger] s[i] != c implies i < trim_end_char(
            s,
            c,
        ).len() by {
            assert(i < s.len() - 1);
            assert(s.drop_last()[i] == s[i]);
        }
    }
}

/// The rendered document always ends with exactly one newline, and it starts with
/// the frontmatter's opening `---`.
pub proof fn law_render_ends_with_one_newline(d: DocumentV)
    ensures
        render_spec(d).len() >= 2,
        render_spec(d).last() == '\n',
        render_spec(d)[render_spec(d).len() - 2] != '\n',
        render_spec(d)[0] == '-',
{
    let full = frontmatter_spec(d.metadata) + render_blocks_spec(d.blocks);
    reveal_strlit("---\n");
    assert(full[0] == '-');
    assert(full[1] == '-');
    lemma_trim_end_char_not_last(full, '\n');
    let t = trim_end_char(full, '\n');
    assert(0 < t.len());
    assert(t[0] == '-');
}

/// Text that can stand in one cell of a table row: no line break, and every
/// `|` escaped by a backslash before it.
pub open spec fn cell_safe(t: Seq<char>) -> bool {
    forall|i: int|
        0 <= i < t.len() ==> #[trigger] t[i] != '\n' && t[i] != '\r' && (t[i] == '|' ==> i > 0 && t[i - 1] == '\\')
}

proof fn lemma_collapse_one_line(s: Seq<char>)
    ensures
        forall|i: int| 0 <= i < collapse(s).len() ==> #[trigger] collapse(s)[i] != '\n' && collapse(s)[i] != '\r',
    decreases s.len(),
{
    if s.len() > 0 {
        let p = s.drop_last();
        let r = collapse(p);
        lemma_collapse_one_line(p);
        assert(is_ws('\n') && is_ws('\r'));
        assert forall|i: int| 0 <= i < collapse(s).len() implies #[trigger] collapse(s)[i] != '\n' && collapse(
            s,
        )[i] != '\r' by {
            if i < r.len() {
                assert(collapse(s)[i] == r[i]);
            }
        }
    }
}

proof fn lemma_escape_cell_safe(s: Seq<char>)
    requires
        forall|i: int| 0 <= i < s.len() ==> #[trigger] s[i] != '\n' && s[i] != '\r',
    ensures
        cell_safe(map_chars(s, escape_pipe_fn())),
    decreases s.len(),
{
    if s.len() > 0 {
        let p = s.drop_last();
        assert forall|i: int| 0 <= i < p.len() implies #[trigger] p[i] != '\n' && p[i] != '\r' by {
            assert(p[i] == s[i]);
        }
        lemma_escape_cell_safe(p);
        let a = map_chars(p, escape_pipe_fn());
        let t = map_chars(s, escape_pipe_fn());
        assert(t == a + escape_pipe_char(s.last()));
        assert forall|i: int| 0 <= i < t.len() implies #[trigger] t[i] != '\n' && t[i] != '\r' && (t[i] == '|'
            ==> i > 0 && t[i - 1] == '\\') by {
            if i < a.len() {
                assert(t[i] == a[i]);
                if t[i] == '|' {
                    assert(t[i - 1] == a[i - 1]);
                }
            }
        }
    }
}

/// A table cell always renders on one line with its pipes escaped, whatever
/// its text holds: `escape_cell` collapses line breaks and escapes `|`.
pub proof fn law_table_cell_one_line(s: Seq<char>)
    ensures
        cell_safe(escape_cell_spec(s)),
{
    lemma_collapse_one_line(s);
    lemma_escape_cell_safe(collapse(s));
}

proof fn lemma_repeat_char(c: char, n: nat)
    ensures
        repeat_char(c, n).len() == n,
        forall|i: int| 0 <= i < n ==> #[trigger] repeat_char(c, n)[i] == c,
    decreases n,
{
    if n > 0 {
        lemma_repeat_char(c, (n - 1) as nat);
    }
}

proof fn lemma_run_end_le_max(s: Seq<char>, k: int)
    requires
        0 <= k <= s.len(),
    ensures
        backtick_run_end(s.take(k)) <= max_backtick_run(s),
    decreases s.len(),
{
    if k < s.len() {
        assert(s.drop_last().take(k) =~= s.take(k));
        lemma_run_end_le_max(s.drop_last(), k);
    } else {
        assert(s.take(k) =~= s);
    }
}

proof fn lemma_run_end_ge(s: Seq<char>, i: int, j: int)
    requires
        0 <= i <= j <= s.len(),
        forall|k: int| i <= k < j ==> s[k] == '`',
    ensures
        backtick_run_end(s.take(j)) >= j - i,
    decreases j - i,
{
    if i < j {
        lemma_run_end_ge(s, i, j - 1);
        assert(s.take(j).drop_last() =~= s.take(j - 1));
        assert(s.take(j).last() == s[j - 1]);
    }
}

/// The fence of a code block is made of backticks only and is longer than
/// every run of backticks in the code, so the code cannot close it early.
pub proof fn law_fence_longer_than_runs(code: Seq<char>, i: int, j: int)
    requires
        0 <= i <= j <= code.len(),
        forall|k: int| i <= k < j ==> code[k] == '`',
    ensures
        j - i < pick_fence_spec(code).len(),
        pick_fence_spec(code).len() >= 3,
        forall|k: int| 0 <= k < pick_fence_spec(code).len() ==> #[trigger] pick_fence_spec(code)[k] == '`',
{
    lemma_repeat_char('`', fence_len(code));
    lemma_run_end_ge(code, i, j);
    lemma_run_end_le_max(code, j);
}

pub open spec fn one_line(t: Seq<char>) -> bool {
    forall|i: int| 0 <= i < t.len() ==> #[trigger] t[i] != '\n' && t[i] != '\r'
}

proof fn lemma_yaml_escape_one_line(s: Seq<char>)
    ensures
        one_line(map_chars(s, yaml_escape_fn())),
    decreases s.len(),
{
    if s.len() > 0 {
        lemma_yaml_escape_one_line(s.drop_last());
        let a = map_chars(s.drop_last(), yaml_escape_fn());
        let t = map_chars(s, yaml_escape_fn());
        assert(t == a + yaml_escape_char(s.last()));
        assert forall|i: int| 0 <= i < t.len() implies #[trigger] t[i] != '\n' && t[i] != '\r' by {
            if i < a.len() {
                assert(t[i] == a[i]);
            }
        }
    }
}

/// A frontmatter value always stays on its line: the YAML scalar of any text
/// holds no line break (line breaks inside the text are written `\n` / `\r`).
pub proof fn law_yaml_scalar_one_line(s: Seq<char>)
    ensures
        one_line(yaml_scalar_spec(s)),
{
    lemma_yaml_escape_one_line(s);
    if s.len() > 0 && !yaml_needs_quote(s) {
        assert forall|i: int| 0 <= i < s.len() implies #[trigger] s[i] != '\n' && s[i] != '\r' by {
            if s[i] == '\n' {
                assert(s.contains('\n'));
            }
            if s[i] == '\r' {
                assert(s.contains('\r'));
            }
        }
    } else if s.len() > 0 {
        let m = map_chars(s, yaml_escape_fn());
        let t = seq!['"'] + m + seq!['"'];
        assert forall|i: int| 0 <= i < t.len() implies #[trigger] t[i] != '\n' && t[i] != '\r' by {
            if 1 <= i < t.len() - 1 {
                assert(t[i] == m[i - 1]);
            }
        }
    }
}

} // verus!
