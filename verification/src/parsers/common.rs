//! Pieces shared by the XML-based parsers: plain text of inline runs, the
//! table under construction, the style → heading-level lists and the number
//! parsing of heading style names.

use vstd::prelude::*;
use crate::ir::{inline_view, inlines_view, Inline, InlineV, Table, TableV};
use crate::parsers::natural::{digits_value, is_digit};
use crate::strs::{join, join_strings};
use crate::text::{collapse, collapse_ws, push_char, str_eq};

verus! {

// ── plain text of inline runs ───────────────────────────────────

/// The text of an inline: formatting dropped, a line break as a space.
pub open spec fn inline_plain(i: InlineV) -> Seq<char>
    decreases i,
{
    match i {
        InlineV::Text(t) => t,
        InlineV::Code(t) => t,
        InlineV::Bold(b) => inline_plain(*b),
        InlineV::Italic(b) => inline_plain(*b),
        InlineV::Strike(b) => inline_plain(*b),
        InlineV::Link { text, .. } => text,
        InlineV::LineBreak => seq![' '],
    }
}

pub open spec fn inlines_plain(s: Seq<InlineV>) -> Seq<char>
    decreases s.len(),
{
    if s.len() == 0 {
        Seq::empty()
    } else {
        inlines_plain(s.drop_last()) + inline_plain(s.last())
    }
}

pub fn append_inline_plain(i: &Inline, out: &mut String)
    ensures
        final(out)@ == old(out)@ + inline_plain(i@),
    decreases i,
{
    match i {
        Inline::Text(t) => out.append(t.as_str()),
        Inline::Code(t) => out.append(t.as_str()),
        Inline::Bold(b) => append_inline_plain(b, out),
        Inline::Italic(b) => append_inline_plain(b, out),
        Inline::Strike(b) => append_inline_plain(b, out),
        Inline::Link { text, .. } => out.append(text.as_str()),
        Inline::LineBreak => push_char(out, ' '),
    }
}

/// [`inlines_plain`] computed.
pub fn plain_text(runs: &Vec<Inline>) -> (r: String)
    ensures
        r@ == inlines_plain(inlines_view(runs@)),
{
    let ghost v = inlines_view(runs@);
    let mut out = String::new();
    let mut i: usize = 0;
    while i < runs.len()
        invariant
            i <= runs@.len(),
            v == inlines_view(runs@),
            out@ == inlines_plain(v.take(i as int)),
        decreases runs@.len() - i,
    {
        assert(v.take(i + 1).drop_last() =~= v.take(i as int));
        append_inline_plain(&runs[i], &mut out);
        i = i + 1;
    }
    assert(v.take(runs@.len() as int) =~= v);
    out
}

// ── the table under construction ────────────────────────────────

/// A table being built: finished rows, the row being filled and the text of
/// the cell being filled.
pub struct TableCtx {
    pub rows: Vec<Vec<String>>,
    pub cur_row: Vec<String>,
    pub cell: String,
}

pub struct TableCtxV {
    pub rows: Seq<Seq<Seq<char>>>,
    pub cur_row: Seq<Seq<char>>,
    pub cell: Seq<char>,
}

pub open spec fn table_ctx_view(t: TableCtx) -> TableCtxV {
    TableCtxV { rows: t.rows.deep_view(), cur_row: t.cur_row.deep_view(), cell: t.cell@ }
}

pub open spec fn tables_view(s: Seq<TableCtx>) -> Seq<TableCtxV> {
    s.map_values(|t: TableCtx| table_ctx_view(t))
}

pub open spec fn empty_table_ctx() -> TableCtxV {
    TableCtxV { rows: Seq::empty(), cur_row: Seq::empty(), cell: Seq::empty() }
}

/// The finished table: the first row is the header row.
pub open spec fn into_table_spec(t: TableCtxV) -> TableV {
    if t.rows.len() == 0 {
        TableV { headers: Seq::empty(), rows: Seq::empty(), caption: None }
    } else {
        TableV { headers: t.rows[0], rows: t.rows.drop_first(), caption: None }
    }
}

/// The innermost table replaced.
pub open spec fn with_last(ts: Seq<TableCtxV>, t: TableCtxV) -> Seq<TableCtxV> {
    ts.update(ts.len() - 1, t)
}

/// A cell starts: its text is cleared.
pub open spec fn tables_clear_cell(ts: Seq<TableCtxV>) -> Seq<TableCtxV> {
    if ts.len() > 0 {
        with_last(ts, TableCtxV { rows: ts.last().rows, cur_row: ts.last().cur_row, cell: Seq::empty() })
    } else {
        ts
    }
}

/// A row starts: the row being filled is cleared.
pub open spec fn tables_clear_row(ts: Seq<TableCtxV>) -> Seq<TableCtxV> {
    if ts.len() > 0 {
        with_last(ts, TableCtxV { rows: ts.last().rows, cur_row: Seq::empty(), cell: ts.last().cell })
    } else {
        ts
    }
}

/// A cell ends: its collapsed text joins the row.
pub open spec fn tables_end_cell(ts: Seq<TableCtxV>) -> Seq<TableCtxV> {
    if ts.len() > 0 {
        with_last(
            ts,
            TableCtxV { rows: ts.last().rows, cur_row: ts.last().cur_row.push(collapse(ts.last().cell)), cell: Seq::empty() },
        )
    } else {
        ts
    }
}

/// A row ends: it joins the rows.
pub open spec fn tables_end_row(ts: Seq<TableCtxV>) -> Seq<TableCtxV> {
    if ts.len() > 0 {
        with_last(ts, TableCtxV { rows: ts.last().rows.push(ts.last().cur_row), cur_row: Seq::empty(), cell: ts.last().cell })
    } else {
        ts
    }
}

/// A paragraph inside a cell ends: a space separates it from the next one.
pub open spec fn tables_para_space(ts: Seq<TableCtxV>) -> Seq<TableCtxV> {
    if ts.len() > 0 && ts.last().cell.len() > 0 && ts.last().cell.last() != ' ' {
        with_last(ts, TableCtxV { rows: ts.last().rows, cur_row: ts.last().cur_row, cell: ts.last().cell.push(' ') })
    } else {
        ts
    }
}

/// Text added to the cell being filled.
pub open spec fn tables_append(ts: Seq<TableCtxV>, s: Seq<char>) -> Seq<TableCtxV> {
    if ts.len() > 0 {
        with_last(ts, TableCtxV { rows: ts.last().rows, cur_row: ts.last().cur_row, cell: ts.last().cell + s })
    } else {
        ts
    }
}

/// The body rows of a nested table as the plain text that its parent cell absorbs:
/// each row's cells joined by spaces, followed by a space.
pub open spec fn rows_text(rows: Seq<Seq<Seq<char>>>) -> Seq<char>
    decreases rows.len(),
{
    if rows.len() == 0 {
        Seq::empty()
    } else {
        rows_text(rows.drop_last()) + join(rows.last(), " "@) + " "@
    }
}

pub fn new_table_ctx() -> (t: TableCtx)
    ensures
        table_ctx_view(t) == empty_table_ctx(),
{
    let t = TableCtx { rows: Vec::new(), cur_row: Vec::new(), cell: String::new() };
    assert(table_ctx_view(t).rows =~= Seq::<Seq<Seq<char>>>::empty());
    assert(table_ctx_view(t).cur_row =~= Seq::<Seq<char>>::empty());
    t
}

/// The finished table.
pub fn into_table(t: TableCtx) -> (r: Table)
    ensures
        r@ == into_table_spec(table_ctx_view(t)),
{
    let ghost tv = table_ctx_view(t);
    let mut rows = t.rows;
    if rows.len() == 0 {
        let r = Table { headers: Vec::new(), rows, caption: None };
        assert(r@.headers =~= Seq::<Seq<char>>::empty());
        assert(r@.rows =~= Seq::<Seq<Seq<char>>>::empty());
        r
    } else {
        let headers = rows.remove(0);
        let r = Table { headers, rows, caption: None };
        assert(r@.rows =~= tv.rows.drop_first());
        r
    }
}

fn take_last(ts: &mut Vec<TableCtx>) -> (t: TableCtx)
    requires
        old(ts)@.len() > 0,
    ensures
        final(ts)@ == old(ts)@.drop_last(),
        t == old(ts)@.last(),
{
    match ts.pop() {
        Some(t) => t,
        None => {
            assert(false);
            new_table_ctx()
        },
    }
}

proof fn lemma_put_back(old_ts: Seq<TableCtx>, t: TableCtx)
    requires
        old_ts.len() > 0,
    ensures
        tables_view(old_ts.drop_last().push(t)) == with_last(tables_view(old_ts), table_ctx_view(t)),
{
    assert(tables_view(old_ts.drop_last().push(t)) =~= with_last(tables_view(old_ts), table_ctx_view(t)));
}

pub fn clear_cell(ts: &mut Vec<TableCtx>)
    ensures
        tables_view(final(ts)@) == tables_clear_cell(tables_view(old(ts)@)),
{
    if ts.len() > 0 {
        let mut t = take_last(ts);
        t.cell = String::new();
        ts.push(t);
        proof {
            lemma_put_back(old(ts)@, t);
        }
    }
}

pub fn clear_row(ts: &mut Vec<TableCtx>)
    ensures
        tables_view(final(ts)@) == tables_clear_row(tables_view(old(ts)@)),
{
    if ts.len() > 0 {
        let mut t = take_last(ts);
        t.cur_row = Vec::new();
        ts.push(t);
        proof {
            assert(t.cur_row.deep_view() =~= Seq::<Seq<char>>::empty());
            lemma_put_back(old(ts)@, t);
        }
    }
}

pub fn end_cell(ts: &mut Vec<TableCtx>)
    ensures
        tables_view(final(ts)@) == tables_end_cell(tables_view(old(ts)@)),
{
    if ts.len() > 0 {
        let mut t = take_last(ts);
        let c = collapse_ws(t.cell.as_str());
        let ghost before = t.cur_row.deep_view();
        t.cur_row.push(c);
        t.cell = String::new();
        ts.push(t);
        proof {
            assert(t.cur_row.deep_view() =~= before.push(c@));
            lemma_put_back(old(ts)@, t);
        }
    }
}

pub fn end_row(ts: &mut Vec<TableCtx>)
    ensures
        tables_view(final(ts)@) == tables_end_row(tables_view(old(ts)@)),
{
    if ts.len() > 0 {
        let mut t = take_last(ts);
        let ghost before = t.rows.deep_view();
        let mut row: Vec<String> = Vec::new();
        std::mem::swap(&mut row, &mut t.cur_row);
        t.rows.push(row);
        ts.push(t);
        proof {
            assert(t.rows.deep_view() =~= before.push(row.deep_view()));
            assert(t.cur_row.deep_view() =~= Seq::<Seq<char>>::empty());
            lemma_put_back(old(ts)@, t);
        }
    }
}

fn ends_with_space(s: &String) -> (r: bool)
    ensures
        r == (s@.len() > 0 && s@.last() == ' '),
{
    let cs = crate::text::chars_of(s.as_str());
    cs.len() > 0 && cs[cs.len() - 1] == ' '
}

pub fn para_space(ts: &mut Vec<TableCtx>)
    ensures
        tables_view(final(ts)@) == tables_para_space(tables_view(old(ts)@)),
{
    if ts.len() > 0 {
        let n = ts.len();
        if !ts[n - 1].cell.as_str().is_empty() && !ends_with_space(&ts[n - 1].cell) {
            let mut t = take_last(ts);
            push_char(&mut t.cell, ' ');
            ts.push(t);
            proof {
                lemma_put_back(old(ts)@, t);
            }
        }
    }
}

pub fn append_cell(ts: &mut Vec<TableCtx>, s: &str)
    ensures
        tables_view(final(ts)@) == tables_append(tables_view(old(ts)@), s@),
{
    if ts.len() > 0 {
        let mut t = take_last(ts);
        t.cell.append(s);
        ts.push(t);
        proof {
            lemma_put_back(old(ts)@, t);
        }
    }
}

/// [`rows_text`] added to a cell.
pub fn append_rows_text(cell: &mut String, rows: &Vec<Vec<String>>)
    ensures
        final(cell)@ == old(cell)@ + rows_text(rows.deep_view()),
{
    let ghost rv = rows.deep_view();
    let mut i: usize = 0;
    while i < rows.len()
        invariant
            i <= rows@.len(),
            rv == rows.deep_view(),
            rv.len() == rows@.len(),
            cell@ == old(cell)@ + rows_text(rv.take(i as int)),
        decreases rows@.len() - i,
    {
        assert(rv.take(i + 1).drop_last() =~= rv.take(i as int));
        assert(rv[i as int] == rows@[i as int].deep_view());
        let line = join_strings(&rows[i], " ");
        let ghost before = cell@;
        proof {
            reveal_strlit(" ");
        }
        cell.append(line.as_str());
        push_char(cell, ' ');
        assert(cell@ =~= before + join(rv[i as int], " "@) + " "@);
        assert(rows_text(rv.take(i + 1)) == rows_text(rv.take(i as int)) + join(rv[i as int], " "@) + " "@);
        assert(cell@ =~= old(cell)@ + rows_text(rv.take(i + 1)));
        i = i + 1;
    }
    assert(rv.take(rows@.len() as int) =~= rv);
}

// ── style id → heading level ────────────────────────────────────

/// The level recorded for a style id (a later record wins).
pub open spec fn style_lookup(styles: Seq<(Seq<char>, u8)>, id: Seq<char>) -> Option<u8>
    decreases styles.len(),
{
    if styles.len() == 0 {
        None
    } else if styles.last().0 == id {
        Some(styles.last().1)
    } else {
        style_lookup(styles.drop_last(), id)
    }
}

pub open spec fn styles_view(v: Seq<(String, u8)>) -> Seq<(Seq<char>, u8)> {
    v.map_values(|p: (String, u8)| (p.0@, p.1))
}

/// [`style_lookup`] computed.
pub fn find_style(styles: &Vec<(String, u8)>, id: &str) -> (r: Option<u8>)
    ensures
        r == style_lookup(styles_view(styles@), id@),
{
    let ghost sv = styles_view(styles@);
    let mut n = styles.len();
    assert(sv.take(n as int) =~= sv);
    while n > 0
        invariant
            n <= styles@.len(),
            sv == styles_view(styles@),
            style_lookup(sv.take(n as int), id@) == style_lookup(sv, id@),
        decreases n,
    {
        assert(sv.take(n as int).drop_last() =~= sv.take(n - 1));
        if str_eq(styles[n - 1].0.as_str(), id) {
            return Some(styles[n - 1].1);
        }
        n = n - 1;
    }
    None
}

// ── heading numbers ─────────────────────────────────────────────

pub open spec fn all_digits(s: Seq<char>) -> bool {
    forall|i: int| 0 <= i < s.len() ==> is_digit(#[trigger] s[i])
}

/// `str::parse::<u8>`: an optional `+`, then at least one digit, of value at most 255.
pub open spec fn parse_u8(s: Seq<char>) -> Option<u8> {
    let d = if s.len() > 1 && s[0] == '+' { s.drop_first() } else { s };
    if d.len() > 0 && all_digits(d) && digits_value(d) <= 255 {
        Some(digits_value(d) as u8)
    } else {
        None
    }
}

/// A heading level kept within 1..=6.
pub open spec fn clamp_heading(v: u8) -> u8 {
    if v < 1 { 1 } else if v > 6 { 6 } else { v }
}

/// A parsed heading number: 1 when it does not parse, then kept within 1..=6.
pub open spec fn heading_number(s: Seq<char>) -> u8 {
    match parse_u8(s) {
        Some(v) => clamp_heading(v),
        None => 1,
    }
}

proof fn lemma_digits_value_monotone(s: Seq<char>, k: int)
    requires
        0 <= k <= s.len(),
        all_digits(s),
    ensures
        digits_value(s.take(k)) <= digits_value(s),
    decreases s.len() - k,
{
    if k < s.len() {
        lemma_digits_value_monotone(s, k + 1);
        let t = s.take(k + 1);
        assert(t.drop_last() =~= s.take(k));
        assert(t.last() == s[k]);
        assert(is_digit(s[k]));
        assert(digits_value(t) == digits_value(s.take(k)) * 10 + (s[k] as int - '0' as int) as nat);
    } else {
        assert(s.take(k) =~= s);
    }
}

/// [`parse_u8`] computed.
pub fn parse_u8_str(s: &str) -> (r: Option<u8>)
    ensures
        r == parse_u8(s@),
{
    let cs = crate::text::chars_of(s);
    let start: usize = if cs.len() > 1 && cs[0] == '+' { 1 } else { 0 };
    let ghost d = if s@.len() > 1 && s@[0] == '+' { s@.drop_first() } else { s@ };
    assert(d =~= cs@.skip(start as int));
    if start == cs.len() {
        return None;
    }
    let mut n: u64 = 0;
    let mut i = start;
    while i < cs.len()
        invariant
            start <= i <= cs@.len(),
            start < cs@.len(),
            cs@ == s@,
            d == (if s@.len() > 1 && s@[0] == '+' { s@.drop_first() } else { s@ }),
            d == cs@.skip(start as int),
            all_digits(cs@.subrange(start as int, i as int)),
            n == digits_value(cs@.subrange(start as int, i as int)),
            n <= 255,
        decreases cs@.len() - i,
    {
        let c = cs[i];
        if !('0' <= c && c <= '9') {
            assert(d[i - start] == c);
            assert(!is_digit(d[i - start]));
            assert(!all_digits(d));
            return None;
        }
        let v = (c as u32 - 48) as u64;
        assert(cs@.subrange(start as int, i + 1).drop_last() =~= cs@.subrange(start as int, i as int));
        n = n * 10 + v;
        i = i + 1;
        if n > 255 {
            proof {
                let p = cs@.subrange(start as int, i as int);
                assert(d.take(i - start) =~= p);
                if all_digits(d) {
                    lemma_digits_value_monotone(d, i - start);
                    assert(digits_value(d) > 255);
                }
            }
            return None;
        }
    }
    assert(cs@.subrange(start as int, cs@.len() as int) =~= d);
    Some(n as u8)
}

pub fn clamp_heading_exec(v: u8) -> (r: u8)
    ensures
        r == clamp_heading(v),
{
    if v < 1 { 1 } else if v > 6 { 6 } else { v }
}

/// [`heading_number`] computed.
pub fn heading_number_of(s: &str) -> (r: u8)
    ensures
        r == heading_number(s@),
{
    match parse_u8_str(s) {
        Some(v) => clamp_heading_exec(v),
        None => 1,
    }
}


// ── magic bytes ─────────────────────────────────────────────────

/// The ZIP local-file-header magic `PK\x03\x04`.
pub open spec fn zip_magic(header: Seq<u8>) -> bool {
    header.len() >= 4 && header[0] == 0x50u8 && header[1] == 0x4Bu8 && header[2] == 0x03u8 && header[3] == 0x04u8
}

pub fn is_zip_magic(header: &[u8]) -> (r: bool)
    ensures
        r == zip_magic(header@),
{
    header.len() >= 4 && header[0] == 0x50u8 && header[1] == 0x4Bu8 && header[2] == 0x03u8 && header[3] == 0x04u8
}

} // verus!
