//! A workbook opened over bytes, tied to those bytes: only [`xlsx_new`] makes
//! an [`XlsxBook`], so the bytes its reads speak of are the bytes opened.

use vstd::prelude::*;
use calamine::Reader;
use crate::parsers::xlsx::{cell_rows_view, xlsx_open, xlsx_range, xlsx_sheet_names, Cell, CellV};

verus! {

type Book = calamine::Xlsx<std::io::Cursor<Vec<u8>>>;

/// An open workbook and the bytes it was opened from.
pub struct XlsxBook {
    wb: Book,
    src: Ghost<Seq<u8>>,
}

impl XlsxBook {
    /// The bytes the workbook was opened from.
    pub closed spec fn src(&self) -> Seq<u8> {
        self.src@
    }
}

/// `calamine::Xlsx::new` over the bytes.
/// Its source does not show that it returns on every malformed input; the
/// contract speaks only of calls that return.
#[verifier::external_body]
pub fn xlsx_new(bytes: Vec<u8>) -> (r: Result<XlsxBook, String>)
    ensures
        match r {
            Ok(b) => xlsx_open(bytes@) is None && b.src() == bytes@,
            Err(m) => xlsx_open(bytes@) == Some(m@),
        },
{
    let src = Ghost(bytes@);
    match calamine::Xlsx::new(std::io::Cursor::new(bytes)) {
        Ok(wb) => Ok(XlsxBook { wb, src }),
        Err(e) => Err(e.to_string()),
    }
}

/// `Reader::sheet_names`.
#[verifier::external_body]
pub fn sheet_names(b: &XlsxBook) -> (r: Vec<String>)
    ensures
        r.deep_view() == xlsx_sheet_names(b.src()),
{
    b.wb.sheet_names()
}

/// `Reader::worksheet_range`, its rows with each cell told apart as empty,
/// string, or another value with its `Display` text.
/// Its source does not show that it returns on every malformed input; the
/// contract speaks only of calls that return.
#[verifier::external_body]
pub fn sheet_cells(b: &mut XlsxBook, name: &str) -> (r: Result<Vec<Vec<Cell>>, String>)
    ensures
        final(b).src() == old(b).src(),
        match r {
            Ok(g) => xlsx_range(old(b).src(), name@) == Ok::<Seq<Seq<CellV>>, Seq<char>>(cell_rows_view(g@)),
            Err(m) => xlsx_range(old(b).src(), name@) == Err::<Seq<Seq<CellV>>, Seq<char>>(m@),
        },
{
    match b.wb.worksheet_range(name) {
        Ok(range) => Ok(range.rows().map(|row| row.iter().map(|c| match c {
            calamine::Data::Empty => Cell::Empty,
            calamine::Data::String(s) => Cell::Text(s.clone()),
            other => Cell::Shown(other.to_string()),
        }).collect()).collect()),
        Err(e) => Err(e.to_string()),
    }
}

} // verus!
