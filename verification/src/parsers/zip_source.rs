//! A zip archive opened over bytes, tied to those bytes: only [`zip_open`]
//! makes a [`ZipReader`], so the bytes its reads speak of are the bytes opened.

use vstd::prelude::*;
use crate::parsers::ooxml::{zip_archive, zip_entry, zip_entry_view, ZipEntry, ZipEntryV};

verus! {

type Archive = zip::read::ZipArchive<std::io::Cursor<Vec<u8>>>;

/// An open archive and the bytes it was opened from.
pub struct ZipReader {
    archive: Archive,
    src: Ghost<Seq<u8>>,
}

impl ZipReader {
    /// The bytes the archive was opened from.
    pub closed spec fn src(&self) -> Seq<u8> {
        self.src@
    }
}

/// `zip::ZipArchive::new` over the bytes, and the `len` of the archive it opened.
/// Its source does not show that it returns on every malformed input; the
/// contract speaks only of calls that return.
#[verifier::external_body]
pub fn zip_open(bytes: Vec<u8>) -> (r: Result<(ZipReader, usize), String>)
    ensures
        match r {
            Ok(p) => zip_archive(bytes@) == Ok::<nat, Seq<char>>(p.1 as nat) && p.0.src() == bytes@,
            Err(m) => zip_archive(bytes@) == Err::<nat, Seq<char>>(m@),
        },
{
    let src = Ghost(bytes@);
    match zip::read::ZipArchive::new(std::io::Cursor::new(bytes)) {
        Ok(a) => {
            let n = a.len();
            Ok((ZipReader { archive: a, src }, n))
        },
        Err(e) => Err(e.to_string()),
    }
}

/// `ZipArchive::by_index`, then the entry's `is_file`, `name` and `read_to_end`.
/// Its source does not show that it returns on every malformed input; the
/// contract speaks only of calls that return.
#[verifier::external_body]
pub fn zip_read_entry(z: &mut ZipReader, index: usize) -> (r: Result<ZipEntry, String>)
    ensures
        final(z).src() == old(z).src(),
        match r {
            Ok(e) => zip_entry(old(z).src(), index as nat) == Ok::<ZipEntryV, Seq<char>>(zip_entry_view(e)),
            Err(m) => zip_entry(old(z).src(), index as nat) == Err::<ZipEntryV, Seq<char>>(m@),
        },
{
    match z.archive.by_index(index) {
        Ok(mut f) => {
            let is_file = f.is_file();
            let name = f.name().to_string();
            let mut buf = Vec::new();
            let data = match std::io::Read::read_to_end(&mut f, &mut buf) {
                Ok(_) => Ok(buf),
                Err(e) => Err(e.to_string()),
            };
            Ok(ZipEntry { is_file, name, data })
        },
        Err(e) => Err(e.to_string()),
    }
}

} // verus!
