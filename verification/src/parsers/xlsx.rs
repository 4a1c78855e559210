//! XLSX, read with calamine: each sheet with a used range becomes a level-2
//! heading (the sheet name) and a table (the first row is the header row);
//! blank rows and columns at the edges are trimmed, blank sheets skipped.

use vstd::prelude::*;
use crate::error::{container_error, ParseError, ParseErrorV};
use crate::ir::{blocks_view, Block, BlockV, Document, DocumentMetadata, DocumentV, MetadataV, SourceFormat, Table, TableV};
use crate::parsers::common::{is_zip_magic, zip_magic};
use crate::parsers::ooxml::concat3;
use crate::parsers::xlsx_source::{sheet_cells, sheet_names, xlsx_new};
use crate::registry::{parse_result_view, FormatParser};
use crate::text::{concat, is_blank, is_blank_str};
use vstd::slice::slice_to_vec;

verus! {

#[verifier::external_type_specification]
#[verifier::external_body]
#[verifier::reject_recursive_types(RS)]
pub struct ExXlsx<RS>(calamine::Xlsx<RS>);

/// A cell as the conversion reads it: empty, a string, or any other value
/// shown with its `Display`.
pub enum CellV {
    Empty,
    Text(Seq<char>),
    Shown(Seq<char>),
}

pub enum Cell {
    Empty,
    Text(String),
    Shown(String),
}

pub open spec fn cell_view(c: Cell) -> CellV {
    match c {
        Cell::Empty => CellV::Empty,
        Cell::Text(s) => CellV::Text(s@),
        Cell::Shown(s) => CellV::Shown(s@),
    }
}

pub open spec fn cell_rows_view(g: Seq<Vec<Cell>>) -> Seq<Seq<CellV>> {
    g.map_values(|r: Vec<Cell>| r@.map_values(|c: Cell| cell_view(c)))
}

/// What `calamine::Xlsx::new` makes of the bytes: `None` when the workbook
/// opened, else the message of the error.
pub uninterp spec fn xlsx_open(bytes: Seq<u8>) -> Option<Seq<char>>;

/// `Reader::sheet_names` of the workbook opened from the bytes.
pub uninterp spec fn xlsx_sheet_names(bytes: Seq<u8>) -> Seq<Seq<char>>;

/// `Reader::worksheet_range` of a sheet: its rows of cells, or the message of the error.
pub uninterp spec fn xlsx_range(bytes: Seq<u8>, sheet: Seq<char>) -> Result<Seq<Seq<CellV>>, Seq<char>>;

/// The text of a cell: empty for an empty cell.
pub open spec fn cell_text(c: CellV) -> Seq<char> {
    match c {
        CellV::Empty => Seq::empty(),
        CellV::Text(s) => s,
        CellV::Shown(s) => s,
    }
}

pub open spec fn grid_text(g: Seq<Seq<CellV>>) -> Seq<Seq<Seq<char>>> {
    g.map_values(|r: Seq<CellV>| r.map_values(|c: CellV| cell_text(c)))
}

fn cell_to_string(c: &Cell) -> (r: String)
    ensures
        r@ == cell_text(cell_view(*c)),
{
    match c {
        Cell::Empty => String::new(),
        Cell::Text(s) => s.clone(),
        Cell::Shown(s) => s.clone(),
    }
}

// ── trimming the grid ───────────────────────────────────────────

pub open spec fn row_blank(r: Seq<Seq<char>>) -> bool {
    forall|i: int| 0 <= i < r.len() ==> is_blank(#[trigger] r[i])
}

pub open spec fn trim_rows_front(g: Seq<Seq<Seq<char>>>) -> Seq<Seq<Seq<char>>>
    decreases g.len(),
{
    if g.len() > 0 && row_blank(g[0]) { trim_rows_front(g.drop_first()) } else { g }
}

pub open spec fn trim_rows_back(g: Seq<Seq<Seq<char>>>) -> Seq<Seq<Seq<char>>>
    decreases g.len(),
{
    if g.len() > 0 && row_blank(g.last()) { trim_rows_back(g.drop_last()) } else { g }
}

/// The length of the longest row.
pub open spec fn max_width(g: Seq<Seq<Seq<char>>>) -> nat
    decreases g.len(),
{
    if g.len() == 0 {
        0
    } else {
        let m = max_width(g.drop_last());
        if g.last().len() > m { g.last().len() } else { m }
    }
}

/// A row filled up with empty cells to `w`.
pub open spec fn pad_row(r: Seq<Seq<char>>, w: nat) -> Seq<Seq<char>> {
    if r.len() < w { r + Seq::new((w - r.len()) as nat, |i: int| Seq::<char>::empty()) } else { r }
}

pub open spec fn col_blank(g: Seq<Seq<Seq<char>>>, j: int) -> bool {
    forall|i: int| 0 <= i < g.len() ==> is_blank(#[trigger] g[i][j])
}

/// The first column from `l` on that is not blank (or `w`).
pub open spec fn left_edge(g: Seq<Seq<Seq<char>>>, w: nat, l: nat) -> nat
    decreases w - l,
{
    if l < w && col_blank(g, l as int) { left_edge(g, w, l + 1) } else { l }
}

/// One past the last column before `r` that is not blank (but not below `left`).
pub open spec fn right_edge(g: Seq<Seq<Seq<char>>>, left: nat, r: nat) -> nat
    decreases r,
{
    if r > left && col_blank(g, r - 1) { right_edge(g, left, (r - 1) as nat) } else { r }
}

/// The grid without blank rows and columns at its edges; rows padded to the widest.
pub open spec fn trim_grid_spec(g: Seq<Seq<Seq<char>>>) -> Seq<Seq<Seq<char>>> {
    let g1 = trim_rows_back(trim_rows_front(g));
    if g1.len() == 0 {
        g1
    } else {
        let w = max_width(g1);
        let p = g1.map_values(|r: Seq<Seq<char>>| pad_row(r, w));
        let l = left_edge(p, w, 0);
        let r = right_edge(p, l, w);
        if l == 0 && r == w { p } else { p.map_values(|row: Seq<Seq<char>>| row.subrange(l as int, r as int)) }
    }
}

fn row_blank_exec(r: &Vec<String>) -> (b: bool)
    ensures
        b == row_blank(r.deep_view()),
{
    let mut i: usize = 0;
    while i < r.len()
        invariant
            i <= r@.len(),
            forall|k: int| 0 <= k < i ==> is_blank(#[trigger] r.deep_view()[k]),
        decreases r@.len() - i,
    {
        if !is_blank_str(r[i].as_str()) {
            assert(r.deep_view()[i as int] == r@[i as int]@);
            return false;
        }
        i = i + 1;
    }
    true
}

fn col_blank_exec(g: &Vec<Vec<String>>, j: usize) -> (b: bool)
    requires
        forall|i: int| 0 <= i < g@.len() ==> j < #[trigger] g@[i]@.len(),
    ensures
        b == col_blank(g.deep_view(), j as int),
{
    let mut i: usize = 0;
    while i < g.len()
        invariant
            i <= g@.len(),
            forall|i: int| 0 <= i < g@.len() ==> j < #[trigger] g@[i]@.len(),
            forall|k: int| 0 <= k < i ==> is_blank(#[trigger] g.deep_view()[k][j as int]),
        decreases g@.len() - i,
    {
        assert(g.deep_view()[i as int][j as int] == g@[i as int]@[j as int]@);
        if !is_blank_str(g[i][j].as_str()) {
            return false;
        }
        i = i + 1;
    }
    true
}

/// [`trim_grid_spec`] computed.
pub fn trim_grid(grid: Vec<Vec<String>>) -> (r: Vec<Vec<String>>)
    ensures
        r.deep_view() == trim_grid_spec(grid.deep_view()),
{
    let ghost g0 = grid.deep_view();
    let mut grid = grid;
    while grid.len() > 0 && row_blank_exec(&grid[0])
        invariant
            trim_rows_front(grid.deep_view()) == trim_rows_front(g0),
        decreases grid@.len(),
    {
        let ghost before = grid.deep_view();
        grid.remove(0);
        assert(grid.deep_view() =~= before.drop_first());
    }
    let ghost g1 = grid.deep_view();
    assert(trim_rows_front(g0) == g1);
    while grid.len() > 0 && row_blank_exec(&grid[grid.len() - 1])
        invariant
            trim_rows_back(grid.deep_view()) == trim_rows_back(g1),
        decreases grid@.len(),
    {
        let ghost before = grid.deep_view();
        grid.pop();
        assert(grid.deep_view() =~= before.drop_last());
    }
    let ghost g2 = grid.deep_view();
    assert(trim_rows_back(g1) == g2);
    if grid.len() == 0 {
        return grid;
    }
    // the widest row
    let mut width: usize = 0;
    let mut i: usize = 0;
    assert(g2.take(0) =~= Seq::<Seq<Seq<char>>>::empty());
    while i < grid.len()
        invariant
            i <= grid@.len(),
            g2 == grid.deep_view(),
            width == max_width(g2.take(i as int)),
        decreases grid@.len() - i,
    {
        assert(g2.take(i + 1).drop_last() =~= g2.take(i as int));
        if grid[i].len() > width {
            width = grid[i].len();
        }
        i = i + 1;
    }
    assert(g2.take(grid@.len() as int) =~= g2);
    // pad every row to the width
    let ghost padded = g2.map_values(|r: Seq<Seq<char>>| pad_row(r, width as nat));
    let mut out: Vec<Vec<String>> = Vec::new();
    let mut k: usize = 0;
    while k < grid.len()
        invariant
            k <= grid@.len(),
            g2 == grid.deep_view(),
            padded == g2.map_values(|r: Seq<Seq<char>>| pad_row(r, width as nat)),
            width == max_width(g2),
            out.deep_view() == padded.take(k as int),
            forall|m: int| 0 <= m < k ==> #[trigger] out@[m]@.len() == width,
        decreases grid@.len() - k,
    {
        let mut row: Vec<String> = crate::ir::copy_strings(&grid[k]);
        let ghost r0 = row.deep_view();
        assert(r0 == g2[k as int]);
        proof {
            lemma_max_width(g2, k as int);
        }
        while row.len() < width
            invariant
                r0.len() <= row.deep_view().len() <= width,
                r0.len() <= width,
                forall|m: int| 0 <= m < r0.len() ==> #[trigger] row.deep_view()[m] == r0[m],
                forall|m: int| r0.len() <= m < row.deep_view().len() ==> #[trigger] row.deep_view()[m] == Seq::<char>::empty(),
            decreases width - row@.len(),
        {
            let ghost before = row.deep_view();
            row.push(String::new());
            assert(row.deep_view() =~= before.push(Seq::<char>::empty()));
        }
        assert(row.deep_view() =~= pad_row(g2[k as int], width as nat));
        assert(padded[k as int] == pad_row(g2[k as int], width as nat));
        let ghost before = out.deep_view();
        let ghost rv = row.deep_view();
        assert(row@.len() == width);
        out.push(row);
        assert(out.deep_view() =~= before.push(rv));
        assert(padded.take(k + 1) =~= padded.take(k as int).push(padded[k as int]));
        assert(out.deep_view() =~= padded.take(k + 1));
        k = k + 1;
    }
    assert(padded.take(grid@.len() as int) =~= padded);
    let ghost p = padded;
    assert(out.deep_view() == p);
    assert forall|m: int| 0 <= m < out@.len() implies width <= #[trigger] out@[m]@.len() by {}
    // blank columns at the edges
    let mut left: usize = 0;
    while left < width && col_blank_exec(&out, left)
        invariant
            left <= width,
            out.deep_view() == p,
            forall|m: int| 0 <= m < out@.len() ==> #[trigger] out@[m]@.len() == width,
            left_edge(p, width as nat, 0) == left_edge(p, width as nat, left as nat),
        decreases width - left,
    {
        left = left + 1;
    }
    assert(left_edge(p, width as nat, left as nat) == left);
    let mut right: usize = width;
    while right > left && col_blank_exec(&out, right - 1)
        invariant
            left <= right <= width,
            out.deep_view() == p,
            forall|m: int| 0 <= m < out@.len() ==> #[trigger] out@[m]@.len() == width,
            right_edge(p, left as nat, width as nat) == right_edge(p, left as nat, right as nat),
        decreases right,
    {
        right = right - 1;
    }
    assert(right_edge(p, left as nat, right as nat) == right);
    if left == 0 && right == width {
        return out;
    }
    let ghost cut = p.map_values(|row: Seq<Seq<char>>| row.subrange(left as int, right as int));
    let mut res: Vec<Vec<String>> = Vec::new();
    let mut k: usize = 0;
    while k < out.len()
        invariant
            k <= out@.len(),
            left <= right <= width,
            out.deep_view() == p,
            forall|m: int| 0 <= m < out@.len() ==> #[trigger] out@[m]@.len() == width,
            cut == p.map_values(|row: Seq<Seq<char>>| row.subrange(left as int, right as int)),
            res.deep_view() == cut.take(k as int),
        decreases out@.len() - k,
    {
        let mut row: Vec<String> = Vec::new();
        let mut j = left;
        assert(out@[k as int]@.len() == width);
        while j < right
            invariant
                left <= j <= right <= width,
                k < out@.len(),
                out@[k as int]@.len() == width,
                row.deep_view() == out@[k as int].deep_view().subrange(left as int, j as int),
            decreases right - j,
        {
            let ghost before = row.deep_view();
            let c = out[k][j].clone();
            assert(out@[k as int].deep_view()[j as int] == c@);
            row.push(c);
            assert(row.deep_view() =~= before.push(c@));
            assert(row.deep_view() =~= out@[k as int].deep_view().subrange(left as int, j + 1));
            j = j + 1;
        }
        assert(out@[k as int].deep_view() == p[k as int]);
        let ghost before = res.deep_view();
        let ghost rv = row.deep_view();
        res.push(row);
        assert(res.deep_view() =~= before.push(rv));
        assert(cut[k as int] == p[k as int].subrange(left as int, right as int));
        assert(cut.take(k + 1) =~= cut.take(k as int).push(cut[k as int]));
        assert(res.deep_view() =~= cut.take(k + 1));
        k = k + 1;
    }
    assert(cut.take(out@.len() as int) =~= cut);
    res
}

proof fn lemma_max_width(g: Seq<Seq<Seq<char>>>, k: int)
    requires
        0 <= k < g.len(),
    ensures
        max_width(g) >= g[k].len(),
    decreases g.len(),
{
    if k < g.len() - 1 {
        assert(g.drop_last()[k] == g[k]);
        lemma_max_width(g.drop_last(), k);
    }
}

proof fn lemma_trim_front(g: Seq<Seq<Seq<char>>>)
    ensures
        trim_rows_front(g).len() <= g.len(),
        forall|i: int|
            0 <= i < trim_rows_front(g).len() ==> #[trigger] trim_rows_front(g)[i] == g[i + g.len()
                - trim_rows_front(g).len()],
        trim_rows_front(g).len() > 0 ==> !row_blank(trim_rows_front(g)[0]),
    decreases g.len(),
{
    if g.len() > 0 && row_blank(g[0]) {
        lemma_trim_front(g.drop_first());
    }
}

proof fn lemma_trim_back(g: Seq<Seq<Seq<char>>>)
    ensures
        trim_rows_back(g).len() <= g.len(),
        forall|i: int| 0 <= i < trim_rows_back(g).len() ==> #[trigger] trim_rows_back(g)[i] == g[i],
        trim_rows_back(g).len() > 0 ==> !row_blank(trim_rows_back(g).last()),
    decreases g.len(),
{
    if g.len() > 0 && row_blank(g.last()) {
        lemma_trim_back(g.drop_last());
    }
}

proof fn lemma_left_edge(g: Seq<Seq<Seq<char>>>, w: nat, l: nat)
    requires
        l <= w,
    ensures
        l <= left_edge(g, w, l) <= w,
        forall|j: int| l <= j < left_edge(g, w, l) ==> col_blank(g, j),
        left_edge(g, w, l) < w ==> !col_blank(g, left_edge(g, w, l) as int),
    decreases w - l,
{
    if l < w && col_blank(g, l as int) {
        lemma_left_edge(g, w, l + 1);
    }
}

proof fn lemma_right_edge(g: Seq<Seq<Seq<char>>>, left: nat, r: nat)
    requires
        left <= r,
    ensures
        left <= right_edge(g, left, r) <= r,
        forall|j: int| right_edge(g, left, r) <= j < r ==> col_blank(g, j),
        right_edge(g, left, r) > left ==> !col_blank(g, right_edge(g, left, r) - 1),
    decreases r,
{
    if r > left && col_blank(g, r - 1) {
        lemma_right_edge(g, left, (r - 1) as nat);
    }
}

/// A row that is not blank has a cell that is not blank.
proof fn lemma_row_witness(row: Seq<Seq<char>>) -> (j: int)
    requires
        !row_blank(row),
    ensures
        0 <= j < row.len(),
        !is_blank(row[j]),
{
    choose|j: int| 0 <= j < row.len() && !is_blank(#[trigger] row[j])
}

/// A trimmed sheet is a rectangle whose edges are not blank: every row has
/// the same number of cells, and, unless it is empty, neither its first nor
/// its last row, nor its first nor its last column, is blank throughout.
pub proof fn law_trimmed_grid_edges(g: Seq<Seq<Seq<char>>>)
    ensures
        ({
            let t = trim_grid_spec(g);
            &&& forall|i: int| 0 <= i < t.len() ==> (#[trigger] t[i]).len() == t[0].len()
            &&& t.len() > 0 ==> {
                &&& t[0].len() > 0
                &&& !row_blank(t[0])
                &&& !row_blank(t.last())
                &&& !col_blank(t, 0)
                &&& !col_blank(t, t[0].len() - 1)
            }
        }),
{
    let f = trim_rows_front(g);
    let g1 = trim_rows_back(f);
    lemma_trim_front(g);
    lemma_trim_back(f);
    if g1.len() > 0 {
        let w = max_width(g1);
        let p = g1.map_values(|r: Seq<Seq<char>>| pad_row(r, w));
        assert forall|i: int| 0 <= i < p.len() implies (#[trigger] p[i]).len() == w by {
            lemma_max_width(g1, i);
        }
        let l = left_edge(p, w, 0);
        lemma_left_edge(p, w, 0);
        let r = right_edge(p, l, w);
        lemma_right_edge(p, l, w);
        let t = trim_grid_spec(g);
        assert forall|i: int| 0 <= i < t.len() implies (#[trigger] t[i]) =~= p[i].subrange(l as int, r as int) by {
            if l == 0 && r == w {
                assert(p[i].subrange(0, w as int) =~= p[i]);
            }
        }
        assert(t.len() == p.len());
        // the first row
        assert(g1[0] == f[0]);
        let j0 = lemma_row_witness(g1[0]);
        lemma_max_width(g1, 0);
        assert(p[0][j0] == g1[0][j0]);
        assert(!col_blank(p, j0));
        assert(l <= j0 < r);
        assert(t[0][j0 - l] == p[0][j0]);
        // the last row
        let n = g1.len() - 1;
        assert(g1.last() == g1[n]);
        let j1 = lemma_row_witness(g1[n]);
        lemma_max_width(g1, n);
        assert(p[n][j1] == g1[n][j1]);
        assert(!col_blank(p, j1));
        assert(l <= j1 < r);
        assert(t[n][j1 - l] == p[n][j1]);
        assert(t.last() == t[n]);
        // the edge columns
        assert(!col_blank(p, l as int));
        assert(!col_blank(p, r - 1));
        assert(!col_blank(t, 0)) by {
            let i = choose|i: int| 0 <= i < p.len() && !is_blank(#[trigger] p[i][l as int]);
            assert(t[i][0] == p[i][l as int]);
        }
        assert(!col_blank(t, t[0].len() - 1)) by {
            let i = choose|i: int| 0 <= i < p.len() && !is_blank(#[trigger] p[i][r - 1]);
            assert(t[i][r - l - 1] == p[i][r - 1]);
        }
    }
}

// ── the parser ──────────────────────────────────────────────────

/// The blocks of the first `k` sheets: for each non-blank sheet, its name as a
/// level-2 heading and its trimmed grid as a table.
pub open spec fn xlsx_sheets(bytes: Seq<u8>, names: Seq<Seq<char>>, k: nat) -> Result<Seq<BlockV>, ParseErrorV>
    decreases k,
{
    if k == 0 {
        Ok(Seq::empty())
    } else {
        match xlsx_sheets(bytes, names, (k - 1) as nat) {
            Err(e) => Err(e),
            Ok(blocks) => {
                let name = names[k - 1];
                match xlsx_range(bytes, name) {
                    Err(m) => Err(container_error("xlsx"@, "sheet '"@ + name + "': "@ + m)),
                    Ok(cells) => {
                        let grid = trim_grid_spec(grid_text(cells));
                        if grid.len() == 0 {
                            Ok(blocks)
                        } else {
                            Ok(blocks.push(BlockV::Heading { level: 2, text: name }).push(
                                BlockV::Table(TableV { headers: grid[0], rows: grid.drop_first(), caption: None }),
                            ))
                        }
                    },
                }
            },
        }
    }
}

/// What parsing an XLSX file gives.
pub open spec fn xlsx_parse_spec(input: Seq<u8>, filename: Seq<char>) -> Result<DocumentV, ParseErrorV> {
    match xlsx_open(input) {
        Some(m) => Err(container_error("xlsx"@, "open: "@ + m)),
        None => {
            let names = xlsx_sheet_names(input);
            match xlsx_sheets(input, names, names.len()) {
                Err(e) => Err(e),
                Ok(blocks) => Ok(DocumentV {
                    metadata: MetadataV {
                        title: None,
                        author: None,
                        created_at: None,
                        source_format: SourceFormat::Xlsx,
                        original_filename: filename,
                        page_count: None,
                        language: None,
                    },
                    blocks,
                }),
            }
        },
    }
}

proof fn lemma_sheets_error_stays(bytes: Seq<u8>, names: Seq<Seq<char>>, k: nat, n: nat)
    requires
        k <= n,
        xlsx_sheets(bytes, names, k) is Err,
    ensures
        xlsx_sheets(bytes, names, n) == xlsx_sheets(bytes, names, k),
    decreases n - k,
{
    if k < n {
        lemma_sheets_error_stays(bytes, names, k, (n - 1) as nat);
    }
}

fn grid_strings(cells: &Vec<Vec<Cell>>) -> (r: Vec<Vec<String>>)
    ensures
        r.deep_view() == grid_text(cell_rows_view(cells@)),
{
    let ghost gv = grid_text(cell_rows_view(cells@));
    let mut out: Vec<Vec<String>> = Vec::new();
    let mut i: usize = 0;
    assert(out.deep_view() =~= gv.take(0));
    while i < cells.len()
        invariant
            i <= cells@.len(),
            gv.len() == cells@.len(),
            gv == grid_text(cell_rows_view(cells@)),
            out.deep_view() == gv.take(i as int),
        decreases cells@.len() - i,
    {
        let row = &cells[i];
        let mut rs: Vec<String> = Vec::new();
        let mut j: usize = 0;
        assert(gv[i as int] =~= row@.map_values(|c: Cell| cell_text(cell_view(c))));
        assert(rs.deep_view() =~= gv[i as int].take(0));
        while j < row.len()
            invariant
                j <= row@.len(),
                i < cells@.len(),
                gv.len() == cells@.len(),
                rs.deep_view() == gv[i as int].take(j as int),
                gv[i as int] == row@.map_values(|c: Cell| cell_text(cell_view(c))),
            decreases row@.len() - j,
        {
            let s = cell_to_string(&row[j]);
            let ghost before = rs.deep_view();
            let ghost sv = s@;
            rs.push(s);
            assert(rs.deep_view() =~= before.push(sv));
            assert(gv[i as int].take(j + 1) =~= gv[i as int].take(j as int).push(gv[i as int][j as int]));
            assert(rs.deep_view() =~= gv[i as int].take(j + 1));
            j = j + 1;
        }
        assert(gv[i as int].take(row@.len() as int) =~= gv[i as int]);
        let ghost before = out.deep_view();
        let ghost rsv = rs.deep_view();
        out.push(rs);
        assert(out.deep_view() =~= before.push(rsv));
        assert(gv.take(i + 1) =~= gv.take(i as int).push(gv[i as int]));
        assert(out.deep_view() =~= gv.take(i + 1));
        i = i + 1;
    }
    assert(gv.take(cells@.len() as int) =~= gv);
    out
}

/// Excel workbooks (`.xlsx`, `.xlsm`).
pub struct XlsxParser;

impl FormatParser for XlsxParser {
    open spec fn spec_name(&self) -> Seq<char> {
        "xlsx"@
    }

    open spec fn spec_extensions(&self) -> Seq<Seq<char>> {
        seq!["xlsx"@, "xlsm"@]
    }

    open spec fn spec_accepts(&self, header: Seq<u8>) -> bool {
        zip_magic(header)
    }

    open spec fn spec_parse(&self, input: Seq<u8>, filename: Seq<char>) -> Result<DocumentV, ParseErrorV> {
        xlsx_parse_spec(input, filename)
    }

    fn supported_extensions(&self) -> (r: &[&'static str]) {
        let r: &[&'static str] = &["xlsx", "xlsm"];
        assert(r@.map_values(|s: &str| s@) =~= seq!["xlsx"@, "xlsm"@]);
        r
    }

    fn can_parse_bytes(&self, header: &[u8]) -> (r: bool) {
        is_zip_magic(header)
    }

    fn name(&self) -> (r: &'static str) {
        "xlsx"
    }

    fn parse(&self, input: &[u8], filename: &str) -> (r: Result<Document, ParseError>) {
        let bytes = slice_to_vec(input);
        let mut book = match xlsx_new(bytes) {
            Ok(w) => w,
            Err(m) => return Err(ParseError::container("xlsx", concat("open: ", m.as_str()))),
        };
        let metadata = DocumentMetadata::new(SourceFormat::Xlsx, filename);
        let names = sheet_names(&book);
        let ghost nv = names.deep_view();
        let mut blocks: Vec<Block> = Vec::new();
        assert(blocks_view(blocks@) =~= Seq::<BlockV>::empty());
        let mut i: usize = 0;
        while i < names.len()
            invariant
                i <= names@.len(),
                book.src() == input@,
                xlsx_open(input@) is None,
                nv == names.deep_view(),
                nv == xlsx_sheet_names(input@),
                nv.len() == names@.len(),
                metadata@ == (MetadataV {
                    title: None,
                    author: None,
                    created_at: None,
                    source_format: SourceFormat::Xlsx,
                    original_filename: filename@,
                    page_count: None,
                    language: None,
                }),
                xlsx_sheets(input@, nv, i as nat) == Ok::<Seq<BlockV>, ParseErrorV>(blocks_view(blocks@)),
            decreases names@.len() - i,
        {
            let name = &names[i];
            assert(nv[i as int] == name@);
            let cells = match sheet_cells(&mut book, name.as_str()) {
                Ok(c) => c,
                Err(m) => {
                    let head = concat3("sheet '", name.as_str(), "': ");
                    proof {
                        lemma_sheets_error_stays(input@, nv, (i + 1) as nat, nv.len());
                    }
                    return Err(ParseError::container("xlsx", concat(head.as_str(), m.as_str())));
                },
            };
            let grid = trim_grid(grid_strings(&cells));
            if grid.len() > 0 {
                let mut rows = grid;
                let ghost gv = rows.deep_view();
                let headers = rows.remove(0);
                assert(rows.deep_view() =~= gv.drop_first());
                let ghost before = blocks_view(blocks@);
                let h = Block::Heading { level: 2, text: name.clone() };
                let t = Block::Table(Table { headers, rows, caption: None });
                let ghost hv = h@;
                let ghost tv = t@;
                blocks.push(h);
                blocks.push(t);
                assert(blocks_view(blocks@) =~= before.push(hv).push(tv));
            }
            i = i + 1;
        }
        Ok(Document { metadata, blocks })
    }
}

} // verus!
