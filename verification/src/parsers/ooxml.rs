//! The ZIP package shared by DOCX, PPTX and HWPX: every file entry of the
//! archive is read once into memory, and the format parsers take the parts
//! they need from it.

use vstd::prelude::*;
use vstd::slice::slice_to_vec;
use crate::error::{encoding_error, markup_error, ParseError, ParseErrorKind, ParseErrorV};
use crate::ir::{opt_str_view, ImageData, ImageDataV};
use crate::media::{after_last_index, base64_encode, base64_spec, last_index_of, mime_from_path, mime_spec, stem_of, stem_spec};
use crate::parsers::xml::{
    attr_lookup, attr_val, attrs_view, event_view, events_view, local_name, local_name_of, read_all,
    xml_read, XmlAttr, XmlAttrV, XmlEvent, XmlEventV,
};
use crate::strs::{join, join_strings};
use crate::parsers::natural::{natural_sort, naturally_sorted, sort_natural};
use crate::strs::{decimal, decimal_string};
use crate::text::{
    chars_of, concat, ends_with_str, has_prefix, has_suffix, starts_with_str, str_eq, string_of,
    strip_bom, strip_bom_str, sub_chars, utf8_decode, utf8_error_message,
};
use vstd::utf8::{decode_utf8, valid_utf8};
use crate::parsers::zip_source::{zip_open, zip_read_entry};

verus! {

#[verifier::external_type_specification]
#[verifier::external_body]
#[verifier::reject_recursive_types(T)]
pub struct ExCursor<T>(std::io::Cursor<T>);

#[verifier::external_type_specification]
#[verifier::external_body]
#[verifier::reject_recursive_types(R)]
pub struct ExZipArchive<R>(zip::read::ZipArchive<R>);

/// One entry of an archive: whether it is a file, its name, and its bytes
/// (or the message of the read error).
pub struct ZipEntryV {
    pub is_file: bool,
    pub name: Seq<char>,
    pub data: Result<Seq<u8>, Seq<char>>,
}

/// What `zip::ZipArchive::new` makes of the bytes: the number of entries
/// (`len`) of the archive, or the message of the error.
pub uninterp spec fn zip_archive(bytes: Seq<u8>) -> Result<nat, Seq<char>>;

/// What `ZipArchive::by_index` gives for an entry number: the entry, or the
/// message of the error.
pub uninterp spec fn zip_entry(bytes: Seq<u8>, index: nat) -> Result<ZipEntryV, Seq<char>>;

/// An entry as it was read.
pub struct ZipEntry {
    pub is_file: bool,
    pub name: String,
    pub data: Result<Vec<u8>, String>,
}

pub open spec fn zip_entry_view(e: ZipEntry) -> ZipEntryV {
    ZipEntryV {
        is_file: e.is_file,
        name: e.name@,
        data: match e.data {
            Ok(d) => Ok(d@),
            Err(m) => Err(m@),
        },
    }
}


// ── the package model ───────────────────────────────────────────

/// The index of the entry with this name, or -1.
pub open spec fn entry_index(es: Seq<(Seq<char>, Seq<u8>)>, name: Seq<char>) -> int
    decreases es.len(),
{
    if es.len() == 0 {
        -1
    } else if es[0].0 == name {
        0
    } else {
        let k = entry_index(es.drop_first(), name);
        if k < 0 { -1 } else { k + 1 }
    }
}

pub proof fn lemma_entry_index(es: Seq<(Seq<char>, Seq<u8>)>, name: Seq<char>)
    ensures
        -1 <= entry_index(es, name) < es.len(),
        entry_index(es, name) >= 0 ==> es[entry_index(es, name)].0 == name,
        forall|i: int| 0 <= i < es.len() && (entry_index(es, name) < 0 || i < entry_index(es, name))
            ==> #[trigger] es[i].0 != name,
    decreases es.len(),
{
    if es.len() > 0 && es[0].0 != name {
        lemma_entry_index(es.drop_first(), name);
        assert forall|i: int| 0 <= i < es.len() && (entry_index(es, name) < 0 || i < entry_index(es, name))
            implies #[trigger] es[i].0 != name by {
            if i > 0 {
                assert(es[i] == es.drop_first()[i - 1]);
            }
        }
    }
}

/// The bytes of the entry with this name.
pub open spec fn entry_data(es: Seq<(Seq<char>, Seq<u8>)>, name: Seq<char>) -> Option<Seq<u8>> {
    let k = entry_index(es, name);
    if k >= 0 { Some(es[k].1) } else { None }
}

/// Storing an entry: a later entry with the same name replaces the bytes of the earlier one.
pub open spec fn package_insert(es: Seq<(Seq<char>, Seq<u8>)>, name: Seq<char>, data: Seq<u8>) -> Seq<(Seq<char>, Seq<u8>)> {
    let k = entry_index(es, name);
    if k >= 0 { es.update(k, (name, data)) } else { es.push((name, data)) }
}

/// The file entries among the first `n` entries of the archive, or the
/// message of the first failure.
pub open spec fn entries_upto(bytes: Seq<u8>, n: nat) -> Result<Seq<(Seq<char>, Seq<u8>)>, Seq<char>>
    decreases n,
{
    if n == 0 {
        Ok(Seq::empty())
    } else {
        match entries_upto(bytes, (n - 1) as nat) {
            Err(m) => Err(m),
            Ok(es) => match zip_entry(bytes, (n - 1) as nat) {
                Err(m) => Err("zip entry "@ + decimal((n - 1) as nat) + ": "@ + m),
                Ok(e) => if !e.is_file {
                    Ok(es)
                } else {
                    match e.data {
                        Err(m) => Err("read "@ + e.name + ": "@ + m),
                        Ok(d) => Ok(package_insert(es, e.name, d)),
                    }
                },
            },
        }
    }
}

proof fn lemma_entries_error_stays(bytes: Seq<u8>, k: nat, n: nat)
    requires
        k <= n,
        entries_upto(bytes, k) is Err,
    ensures
        entries_upto(bytes, n) == entries_upto(bytes, k),
    decreases n - k,
{
    if k < n {
        lemma_entries_error_stays(bytes, k, (n - 1) as nat);
    }
}

/// No two entries share a name.
pub open spec fn names_distinct(es: Seq<(Seq<char>, Seq<u8>)>) -> bool {
    forall|i: int, j: int| 0 <= i < j < es.len() ==> (#[trigger] es[i]).0 != (#[trigger] es[j]).0
}

proof fn lemma_insert_distinct(es: Seq<(Seq<char>, Seq<u8>)>, name: Seq<char>, data: Seq<u8>)
    requires
        names_distinct(es),
    ensures
        names_distinct(package_insert(es, name, data)),
{
    lemma_entry_index(es, name);
    let r = package_insert(es, name, data);
    let k = entry_index(es, name);
    assert forall|i: int, j: int| 0 <= i < j < r.len() implies (#[trigger] r[i]).0 != (#[trigger] r[j]).0 by {
        if k >= 0 {
            assert(r[i].0 == es[i].0);
            assert(r[j].0 == es[j].0);
        } else if j == es.len() {
            assert(r[i] == es[i]);
        } else {
            assert(r[i] == es[i]);
            assert(r[j] == es[j]);
        }
    }
}

proof fn lemma_entries_distinct(bytes: Seq<u8>, n: nat)
    ensures
        entries_upto(bytes, n) matches Ok(es) ==> names_distinct(es),
    decreases n,
{
    if n > 0 {
        lemma_entries_distinct(bytes, (n - 1) as nat);
        match entries_upto(bytes, (n - 1) as nat) {
            Ok(es) => match zip_entry(bytes, (n - 1) as nat) {
                Ok(e) => if e.is_file {
                    match e.data {
                        Ok(d) => lemma_insert_distinct(es, e.name, d),
                        Err(_) => {},
                    }
                },
                Err(_) => {},
            },
            Err(_) => {},
        }
    }
}

/// A package's entry names are distinct: a later archive entry with an
/// earlier one's name replaces its bytes instead of adding a second entry.
pub proof fn law_package_names_distinct(bytes: Seq<u8>)
    ensures
        package_spec(bytes) matches Ok(es) ==> names_distinct(es),
{
    if let Ok(n) = zip_archive(bytes) {
        lemma_entries_distinct(bytes, n);
    }
}

/// The files of the archive held in `bytes`, or the detail of the container error.
pub open spec fn package_spec(bytes: Seq<u8>) -> Result<Seq<(Seq<char>, Seq<u8>)>, Seq<char>> {
    match zip_archive(bytes) {
        Err(m) => Err("zip open: "@ + m),
        Ok(n) => entries_upto(bytes, n),
    }
}

/// What `get_str` gives for an entry: its text without a leading byte-order
/// mark, nothing when it is absent, or an encoding error.
pub open spec fn get_str_spec(es: Seq<(Seq<char>, Seq<u8>)>, name: Seq<char>, fmt: Seq<char>) -> Result<Option<Seq<char>>, ParseErrorV> {
    match entry_data(es, name) {
        None => Ok(None),
        Some(b) => if valid_utf8(b) {
            Ok(Some(strip_bom(decode_utf8(b))))
        } else {
            Err(encoding_error(fmt, name + ": "@ + utf8_error_message(b)))
        },
    }
}

/// An unpacked package: entry path → bytes, in archive order.
pub struct OoxmlPackage {
    entries: Vec<(String, Vec<u8>)>,
}

pub open spec fn entries_view(v: Seq<(String, Vec<u8>)>) -> Seq<(Seq<char>, Seq<u8>)> {
    v.map_values(|e: (String, Vec<u8>)| (e.0@, e.1@))
}

impl OoxmlPackage {
    /// No two entries share a name.
    #[verifier::type_invariant]
    closed spec fn entries_distinct(self) -> bool {
        names_distinct(entries_view(self.entries@))
    }
}

impl View for OoxmlPackage {
    type V = Seq<(Seq<char>, Seq<u8>)>;

    closed spec fn view(&self) -> Seq<(Seq<char>, Seq<u8>)> {
        entries_view(self.entries@)
    }
}

/// The index of the entry named `name`, or `v.len()`.
fn find_entry(v: &Vec<(String, Vec<u8>)>, name: &str) -> (k: usize)
    ensures
        k <= v@.len(),
        k < v@.len() ==> entry_index(entries_view(v@), name@) == k,
        k == v@.len() ==> entry_index(entries_view(v@), name@) == -1,
{
    let ghost ev = entries_view(v@);
    proof {
        lemma_entry_index(ev, name@);
    }
    let mut i: usize = 0;
    while i < v.len()
        invariant
            i <= v@.len(),
            ev == entries_view(v@),
            -1 <= entry_index(ev, name@) < ev.len(),
            entry_index(ev, name@) >= 0 ==> ev[entry_index(ev, name@)].0 == name@,
            forall|j: int| 0 <= j < i ==> #[trigger] ev[j].0 != name@,
        decreases v@.len() - i,
    {
        if str_eq(v[i].0.as_str(), name) {
            assert(ev[i as int].0 == name@);
            proof {
                lemma_entry_index(ev, name@);
            }
            return i;
        }
        i = i + 1;
    }
    proof {
        lemma_entry_index(ev, name@);
        if entry_index(ev, name@) >= 0 {
            assert(ev[entry_index(ev, name@)].0 == name@);
        }
    }
    i
}

fn insert_entry(v: &mut Vec<(String, Vec<u8>)>, name: String, data: Vec<u8>)
    ensures
        entries_view(final(v)@) == package_insert(entries_view(old(v)@), name@, data@),
{
    let k = find_entry(v, name.as_str());
    let ghost nm = name@;
    let ghost dt = data@;
    if k < v.len() {
        v.set(k, (name, data));
        assert(entries_view(v@) =~= package_insert(entries_view(old(v)@), nm, dt));
    } else {
        v.push((name, data));
        assert(entries_view(v@) =~= package_insert(entries_view(old(v)@), nm, dt));
    }
}

/// `s1 + s2 + s3`.
pub fn concat3(a: &str, b: &str, c: &str) -> (r: String)
    ensures
        r@ == a@ + b@ + c@,
{
    let ab = concat(a, b);
    concat(ab.as_str(), c)
}

impl OoxmlPackage {
    /// Reads every file entry of the ZIP archive held in `input`; a later
    /// entry with an earlier entry's name replaces its bytes.  A damaged
    /// archive is a container error of `fmt`.
    pub fn from_reader(input: &[u8], fmt: &'static str) -> (r: Result<OoxmlPackage, ParseError>)
        ensures
            match r {
                Ok(p) => package_spec(input@) == Ok::<Seq<(Seq<char>, Seq<u8>)>, Seq<char>>(p@) && names_distinct(p@),
                Err(e) => package_spec(input@) matches Err(m) && e@ == (ParseErrorV {
                    kind: ParseErrorKind::Container,
                    format: fmt@,
                    detail: m,
                }),
            },
    {
        let bytes = slice_to_vec(input);
        let (mut z, n) = match zip_open(bytes) {
            Ok(p) => p,
            Err(m) => {
                return Err(ParseError::container(fmt, concat("zip open: ", m.as_str())));
            },
        };
        let mut entries: Vec<(String, Vec<u8>)> = Vec::new();
        let mut i: usize = 0;
        assert(entries_view(entries@) =~= Seq::<(Seq<char>, Seq<u8>)>::empty());
        while i < n
            invariant
                i <= n,
                z.src() == input@,
                zip_archive(input@) == Ok::<nat, Seq<char>>(n as nat),
                entries_upto(input@, i as nat) == Ok::<Seq<(Seq<char>, Seq<u8>)>, Seq<char>>(entries_view(entries@)),
            decreases n - i,
        {
            match zip_read_entry(&mut z, i) {
                Err(m) => {
                    let num = decimal_string(i);
                    let head = concat3("zip entry ", num.as_str(), ": ");
                    proof {
                        lemma_entries_error_stays(input@, (i + 1) as nat, n as nat);
                    }
                    return Err(ParseError::container(fmt, concat(head.as_str(), m.as_str())));
                },
                Ok(e) => {
                    if e.is_file {
                        match e.data {
                            Err(m) => {
                                let head = concat3("read ", e.name.as_str(), ": ");
                                proof {
                                    lemma_entries_error_stays(input@, (i + 1) as nat, n as nat);
                                }
                                return Err(ParseError::container(fmt, concat(head.as_str(), m.as_str())));
                            },
                            Ok(d) => {
                                insert_entry(&mut entries, e.name, d);
                            },
                        }
                    }
                },
            }
            i = i + 1;
        }
        proof {
            lemma_entries_distinct(input@, n as nat);
        }
        Ok(OoxmlPackage { entries })
    }

    /// The raw bytes of an entry.
    pub fn get(&self, name: &str) -> (r: Option<&[u8]>)
        ensures
            match r {
                Some(b) => entry_data(self@, name@) == Some(b@),
                None => entry_data(self@, name@) is None,
            },
    {
        let k = find_entry(&self.entries, name);
        if k < self.entries.len() {
            Some(self.entries[k].1.as_slice())
        } else {
            None
        }
    }

    /// An entry decoded as UTF-8 text, without a leading byte-order mark;
    /// bytes that are not UTF-8 are an encoding error of `fmt`.
    pub fn get_str(&self, name: &str, fmt: &'static str) -> (r: Result<Option<String>, ParseError>)
        ensures
            match r {
                Ok(o) => get_str_spec(self@, name@, fmt@) == Ok::<Option<Seq<char>>, ParseErrorV>(opt_str_view(o)),
                Err(e) => get_str_spec(self@, name@, fmt@) == Err::<Option<Seq<char>>, ParseErrorV>(e@),
            },
    {
        match self.get(name) {
            None => Ok(None),
            Some(bytes) => match utf8_decode(bytes) {
                Ok(s) => Ok(Some(strip_bom_str(s.as_str()))),
                Err(m) => Err(ParseError::encoding(fmt, concat3(name, ": ", m.as_str()))),
            },
        }
    }
}


// ── names ───────────────────────────────────────────────────────

/// The entry names that start with `prefix` and end with `suffix`, in archive order.
pub open spec fn matching_names(es: Seq<(Seq<char>, Seq<u8>)>, prefix: Seq<char>, suffix: Seq<char>) -> Seq<Seq<char>>
    decreases es.len(),
{
    if es.len() == 0 {
        Seq::empty()
    } else {
        let r = matching_names(es.drop_last(), prefix, suffix);
        let n = es.last().0;
        if has_prefix(n, prefix) && has_suffix(n, suffix) { r.push(n) } else { r }
    }
}

proof fn lemma_matching_names_in(es: Seq<(Seq<char>, Seq<u8>)>, prefix: Seq<char>, suffix: Seq<char>)
    ensures
        forall|k: int| 0 <= k < matching_names(es, prefix, suffix).len() ==> exists|i: int|
            0 <= i < es.len() && #[trigger] matching_names(es, prefix, suffix)[k] == es[i].0,
    decreases es.len(),
{
    if es.len() > 0 {
        lemma_matching_names_in(es.drop_last(), prefix, suffix);
        let r = matching_names(es.drop_last(), prefix, suffix);
        assert forall|k: int| 0 <= k < matching_names(es, prefix, suffix).len() implies exists|i: int|
            0 <= i < es.len() && #[trigger] matching_names(es, prefix, suffix)[k] == es[i].0 by {
            if k < r.len() {
                let i = choose|i: int| 0 <= i < es.drop_last().len() && r[k] == es.drop_last()[i].0;
                assert(es.drop_last()[i] == es[i]);
            } else {
                assert(matching_names(es, prefix, suffix)[k] == es[es.len() - 1].0);
            }
        }
    }
}

proof fn lemma_matching_names_distinct(es: Seq<(Seq<char>, Seq<u8>)>, prefix: Seq<char>, suffix: Seq<char>)
    requires
        names_distinct(es),
    ensures
        matching_names(es, prefix, suffix).no_duplicates(),
    decreases es.len(),
{
    if es.len() > 0 {
        let p = es.drop_last();
        assert(names_distinct(p)) by {
            assert forall|i: int, j: int| 0 <= i < j < p.len() implies (#[trigger] p[i]).0 != (#[trigger] p[j]).0 by {
                assert(p[i] == es[i] && p[j] == es[j]);
            }
        }
        lemma_matching_names_distinct(p, prefix, suffix);
        lemma_matching_names_in(p, prefix, suffix);
        let r = matching_names(p, prefix, suffix);
        let n = es.last().0;
        if has_prefix(n, prefix) && has_suffix(n, suffix) {
            let t = r.push(n);
            assert forall|a: int, b: int| 0 <= a < t.len() && 0 <= b < t.len() && a != b implies t[a] != t[b] by {
                if a < r.len() && b < r.len() {
                } else if a < r.len() {
                    let i = choose|i: int| 0 <= i < p.len() && #[trigger] r[a] == p[i].0;
                    assert(p[i] == es[i]);
                    assert(es[i].0 != es[es.len() - 1].0);
                } else {
                    let i = choose|i: int| 0 <= i < p.len() && #[trigger] r[b] == p[i].0;
                    assert(p[i] == es[i]);
                    assert(es[i].0 != es[es.len() - 1].0);
                }
            }
        }
    }
}

/// The index of the first entry whose name ends with `suffix`, or -1.
pub open spec fn suffix_index(es: Seq<(Seq<char>, Seq<u8>)>, suffix: Seq<char>) -> int
    decreases es.len(),
{
    if es.len() == 0 {
        -1
    } else if has_suffix(es[0].0, suffix) {
        0
    } else {
        let k = suffix_index(es.drop_first(), suffix);
        if k < 0 { -1 } else { k + 1 }
    }
}

proof fn lemma_suffix_index(es: Seq<(Seq<char>, Seq<u8>)>, suffix: Seq<char>)
    ensures
        -1 <= suffix_index(es, suffix) < es.len(),
        suffix_index(es, suffix) >= 0 ==> has_suffix(es[suffix_index(es, suffix)].0, suffix),
        forall|i: int| 0 <= i < es.len() && (suffix_index(es, suffix) < 0 || i < suffix_index(es, suffix))
            ==> !has_suffix(#[trigger] es[i].0, suffix),
    decreases es.len(),
{
    if es.len() > 0 && !has_suffix(es[0].0, suffix) {
        lemma_suffix_index(es.drop_first(), suffix);
        assert forall|i: int| 0 <= i < es.len() && (suffix_index(es, suffix) < 0 || i < suffix_index(es, suffix))
            implies !has_suffix(#[trigger] es[i].0, suffix) by {
            if i > 0 {
                assert(es[i] == es.drop_first()[i - 1]);
            }
        }
    }
}

impl OoxmlPackage {
    /// The entry paths that start with `prefix` and end with `suffix`, in
    /// natural order (`slide2` before `slide10`).
    pub fn names_matching(&self, prefix: &str, suffix: &str) -> (r: Vec<String>)
        ensures
            r@.map_values(|s: String| s@) == natural_sort(matching_names(self@, prefix@, suffix@)),
            r@.map_values(|s: String| s@).to_multiset() == matching_names(self@, prefix@, suffix@).to_multiset(),
            naturally_sorted(r@.map_values(|s: String| s@)),
            r@.map_values(|s: String| s@).no_duplicates(),
    {
        proof {
            use_type_invariant(self);
        }
        let ghost es = self@;
        let mut names: Vec<String> = Vec::new();
        let mut i: usize = 0;
        while i < self.entries.len()
            invariant
                i <= self.entries@.len(),
                es == entries_view(self.entries@),
                names@.map_values(|s: String| s@) == matching_names(es.take(i as int), prefix@, suffix@),
            decreases self.entries@.len() - i,
        {
            assert(es.take(i + 1).drop_last() =~= es.take(i as int));
            let n = &self.entries[i].0;
            if starts_with_str(n.as_str(), prefix) && ends_with_str(n.as_str(), suffix) {
                names.push(n.clone());
            }
            assert(names@.map_values(|s: String| s@) =~= matching_names(es.take(i + 1), prefix@, suffix@));
            i = i + 1;
        }
        assert(es.take(self.entries@.len() as int) =~= es);
        let r = sort_natural(names);
        proof {
            let m = matching_names(es, prefix@, suffix@);
            lemma_matching_names_distinct(es, prefix@, suffix@);
            let rv = r@.map_values(|s: String| s@);
            m.lemma_multiset_has_no_duplicates();
            assert forall|x: Seq<char>| rv.to_multiset().contains(x) implies rv.to_multiset().count(x) == 1 by {
                assert(m.to_multiset().contains(x));
            }
            rv.lemma_multiset_has_no_duplicates_conv();
        }
        r
    }

    /// The bytes of the first entry (in archive order) whose path ends with `suffix`.
    pub fn get_by_suffix(&self, suffix: &str) -> (r: Option<&[u8]>)
        ensures
            match r {
                Some(b) => suffix_index(self@, suffix@) >= 0 && b@ == self@[suffix_index(self@, suffix@)].1,
                None => suffix_index(self@, suffix@) < 0,
            },
    {
        let ghost es = self@;
        proof {
            lemma_suffix_index(es, suffix@);
        }
        let mut i: usize = 0;
        while i < self.entries.len()
            invariant
                i <= self.entries@.len(),
                es == entries_view(self.entries@),
                -1 <= suffix_index(es, suffix@) < es.len(),
                suffix_index(es, suffix@) >= 0 ==> has_suffix(es[suffix_index(es, suffix@)].0, suffix@),
                forall|j: int| 0 <= j < i ==> !has_suffix(#[trigger] es[j].0, suffix@),
            decreases self.entries@.len() - i,
        {
            if ends_with_str(self.entries[i].0.as_str(), suffix) {
                proof {
                    lemma_suffix_index(es, suffix@);
                    assert(has_suffix(es[i as int].0, suffix@));
                    if suffix_index(es, suffix@) >= 0 && suffix_index(es, suffix@) < i {
                        assert(has_suffix(es[suffix_index(es, suffix@)].0, suffix@));
                    }
                    assert(suffix_index(es, suffix@) == i);
                }
                return Some(self.entries[i].1.as_slice());
            }
            i = i + 1;
        }
        proof {
            lemma_suffix_index(es, suffix@);
        }
        None
    }
}

// ── relationship targets ────────────────────────────────────────

/// The pieces of `s` between `/` characters (`str::split('/')`).
pub open spec fn slash_segments(s: Seq<char>) -> Seq<Seq<char>>
    decreases s.len(),
{
    if s.len() == 0 {
        seq![Seq::empty()]
    } else {
        let ps = slash_segments(s.drop_last());
        if s.last() == '/' {
            ps.push(Seq::empty())
        } else {
            ps.update(ps.len() - 1, ps.last().push(s.last()))
        }
    }
}

proof fn lemma_slash_segments_len(s: Seq<char>)
    ensures
        slash_segments(s).len() >= 1,
    decreases s.len(),
{
    if s.len() > 0 {
        lemma_slash_segments_len(s.drop_last());
    }
}

/// One path segment applied to the segments kept so far: empty and `.`
/// segments are dropped, `..` removes the last kept one.
pub open spec fn apply_segment(kept: Seq<Seq<char>>, g: Seq<char>) -> Seq<Seq<char>> {
    if g.len() == 0 || g == "."@ {
        kept
    } else if g == ".."@ {
        if kept.len() > 0 { kept.drop_last() } else { kept }
    } else {
        kept.push(g)
    }
}

pub open spec fn normalize_segments(segs: Seq<Seq<char>>) -> Seq<Seq<char>>
    decreases segs.len(),
{
    if segs.len() == 0 {
        Seq::empty()
    } else {
        apply_segment(normalize_segments(segs.drop_last()), segs.last())
    }
}

/// A relationship target resolved against the directory of its part (a
/// leading `/` starts at the package root).
pub open spec fn resolve_target(dir: Seq<char>, target: Seq<char>) -> Seq<char> {
    let base = if target.len() > 0 && target[0] == '/' { target } else { dir + target };
    join(normalize_segments(slash_segments(base)), "/"@)
}

/// The directory of a part, with its trailing `/` (empty at the root).
pub open spec fn part_dir(part: Seq<char>) -> Seq<char> {
    part.take(last_index_of(part, '/') + 1)
}

/// The relationships part of a part: `dir/_rels/name.rels`.
pub open spec fn rels_path(part: Seq<char>) -> Seq<char> {
    part_dir(part) + "_rels/"@ + part.skip(last_index_of(part, '/') + 1) + ".rels"@
}

proof fn lemma_last_index_bounds(s: Seq<char>, c: char)
    ensures
        -1 <= last_index_of(s, c) < s.len(),
    decreases s.len(),
{
    if s.len() > 0 && s.last() != c {
        lemma_last_index_bounds(s.drop_last(), c);
    }
}

fn apply_segment_exec(kept: &mut Vec<String>, g: &Vec<char>)
    ensures
        final(kept).deep_view() == apply_segment(old(kept).deep_view(), g@),
{
    proof {
        reveal_strlit(".");
        reveal_strlit("..");
    }
    if g.len() == 0 || (g.len() == 1 && g[0] == '.') {
        assert(g@.len() == 0 || g@ =~= "."@);
    } else if g.len() == 2 && g[0] == '.' && g[1] == '.' {
        assert(g@ =~= ".."@);
        if kept.len() > 0 {
            kept.pop();
            assert(kept.deep_view() =~= old(kept).deep_view().drop_last());
        }
    } else {
        assert(g@ != "."@ && g@ != ".."@);
        kept.push(string_of(g.as_slice()));
        assert(kept.deep_view() =~= old(kept).deep_view().push(g@));
    }
}

/// [`resolve_target`] computed.
pub fn resolve_path(dir: &str, target: &str) -> (r: String)
    ensures
        r@ == resolve_target(dir@, target@),
{
    let tc = chars_of(target);
    let base = if tc.len() > 0 && tc[0] == '/' { tc } else {
        let joined = concat(dir, target);
        chars_of(joined.as_str())
    };
    let ghost b = base@;
    assert(b == (if target@.len() > 0 && target@[0] == '/' { target@ } else { dir@ + target@ }));
    let mut kept: Vec<String> = Vec::new();
    let mut cur: Vec<char> = Vec::new();
    let mut i: usize = 0;
    assert(b.take(0) =~= Seq::<char>::empty());
    assert(kept.deep_view() =~= Seq::<Seq<char>>::empty());
    while i < base.len()
        invariant
            i <= base@.len(),
            b == base@,
            slash_segments(b.take(i as int)).len() >= 1,
            kept.deep_view() == normalize_segments(slash_segments(b.take(i as int)).drop_last()),
            cur@ == slash_segments(b.take(i as int)).last(),
        decreases base@.len() - i,
    {
        let ghost ps = slash_segments(b.take(i as int));
        assert(b.take(i + 1).drop_last() =~= b.take(i as int));
        assert(b.take(i + 1).last() == base@[i as int]);
        if base[i] == '/' {
            assert(ps.drop_last().push(ps.last()) =~= ps);
            apply_segment_exec(&mut kept, &cur);
            cur = Vec::new();
            assert(slash_segments(b.take(i + 1)).drop_last() =~= ps);
            assert(cur@ =~= Seq::<char>::empty());
        } else {
            cur.push(base[i]);
            assert(slash_segments(b.take(i + 1)).drop_last() =~= ps.drop_last());
        }
        i = i + 1;
    }
    assert(b.take(base@.len() as int) =~= b);
    let ghost ps = slash_segments(b);
    assert(ps.drop_last().push(ps.last()) =~= ps);
    apply_segment_exec(&mut kept, &cur);
    join_strings(&kept, "/")
}

/// The relationships part of `part`.
pub fn rels_path_of(part: &str) -> (r: String)
    ensures
        r@ == rels_path(part@),
{
    let cs = chars_of(part);
    let k = after_last_index(&cs, '/');
    proof {
        lemma_last_index_bounds(cs@, '/');
    }
    let dir = sub_chars(&cs, 0, k);
    let name = sub_chars(&cs, k, cs.len());
    assert(dir@ =~= part_dir(part@));
    assert(name@ =~= part@.skip(last_index_of(part@, '/') + 1));
    let d = string_of(dir.as_slice());
    let n = string_of(name.as_slice());
    let head = concat3(d.as_str(), "_rels/", n.as_str());
    concat(head.as_str(), ".rels")
}

/// The directory of `part`, with its trailing `/`.
pub fn part_dir_of(part: &str) -> (r: String)
    ensures
        r@ == part_dir(part@),
{
    let cs = chars_of(part);
    let k = after_last_index(&cs, '/');
    proof {
        lemma_last_index_bounds(cs@, '/');
    }
    let dir = sub_chars(&cs, 0, k);
    assert(dir@ =~= part_dir(part@));
    string_of(dir.as_slice())
}

// ── embedded images ─────────────────────────────────────────────

/// An image that a part refers to by an id: the id, the alt text (the media
/// file's stem) and the image.
pub struct ImageRef {
    pub id: String,
    pub alt: String,
    pub data: ImageData,
}

pub struct ImageRefV {
    pub id: Seq<char>,
    pub alt: Seq<char>,
    pub data: ImageDataV,
}

pub open spec fn image_ref_view(r: ImageRef) -> ImageRefV {
    ImageRefV { id: r.id@, alt: r.alt@, data: r.data@ }
}

pub open spec fn image_refs_view(s: Seq<ImageRef>) -> Seq<ImageRefV> {
    s.map_values(|r: ImageRef| image_ref_view(r))
}

/// Whether the extension of a path names an image type.
pub open spec fn is_image_path(path: Seq<char>) -> bool {
    mime_spec(path) != "application/octet-stream"@
}

/// The entry at `path` as a base64 image, when it exists and its extension is an image type.
pub open spec fn embedded_image(es: Seq<(Seq<char>, Seq<u8>)>, path: Seq<char>) -> Option<ImageDataV> {
    match entry_data(es, path) {
        Some(b) => if is_image_path(path) {
            Some(ImageDataV::Base64 { mime: mime_spec(path), data: base64_spec(b) })
        } else {
            None
        },
        None => None,
    }
}

/// A `<Relationship Id Target>` element: an image when its internal target is an image entry.
pub open spec fn relationship(es: Seq<(Seq<char>, Seq<u8>)>, dir: Seq<char>, acc: Seq<ImageRefV>, attrs: Seq<XmlAttrV>) -> Seq<ImageRefV> {
    match (attr_lookup(attrs, "Id"@), attr_lookup(attrs, "Target"@)) {
        (Some(id), Some(t)) => if attr_lookup(attrs, "TargetMode"@) == Some("External"@) {
            acc
        } else {
            let p = resolve_target(dir, t);
            match embedded_image(es, p) {
                Some(d) => acc.push(ImageRefV { id, alt: stem_spec(p), data: d }),
                None => acc,
            }
        },
        _ => acc,
    }
}

pub open spec fn rel_step(es: Seq<(Seq<char>, Seq<u8>)>, dir: Seq<char>, acc: Seq<ImageRefV>, ev: XmlEventV) -> Seq<ImageRefV> {
    match ev {
        XmlEventV::Start { name, attrs } => if local_name(name) == "Relationship"@ {
            relationship(es, dir, acc, attrs)
        } else {
            acc
        },
        XmlEventV::Empty { name, attrs } => if local_name(name) == "Relationship"@ {
            relationship(es, dir, acc, attrs)
        } else {
            acc
        },
        _ => acc,
    }
}

pub open spec fn rel_fold(es: Seq<(Seq<char>, Seq<u8>)>, dir: Seq<char>, evs: Seq<XmlEventV>) -> Seq<ImageRefV>
    decreases evs.len(),
{
    if evs.len() == 0 {
        Seq::empty()
    } else {
        rel_step(es, dir, rel_fold(es, dir, evs.drop_last()), evs.last())
    }
}

/// The images that `part` refers to through its relationships part.
pub open spec fn image_rels_spec(es: Seq<(Seq<char>, Seq<u8>)>, part: Seq<char>, fmt: Seq<char>) -> Result<Seq<ImageRefV>, ParseErrorV> {
    let rp = rels_path(part);
    match entry_data(es, rp) {
        None => Ok(Seq::empty()),
        Some(b) => if !valid_utf8(b) {
            Err(encoding_error(fmt, rp + ": "@ + utf8_error_message(b)))
        } else {
            let x = xml_read(strip_bom(decode_utf8(b)));
            match x.1 {
                Some(m) => Err(markup_error(fmt, rp + ": "@ + m)),
                None => Ok(rel_fold(es, part_dir(part), x.0)),
            }
        },
    }
}

/// The image that an id refers to (the last one listed with it).
pub open spec fn image_lookup(refs: Seq<ImageRefV>, id: Seq<char>) -> Option<ImageRefV>
    decreases refs.len(),
{
    if refs.len() == 0 {
        None
    } else if refs.last().id == id {
        Some(refs.last())
    } else {
        image_lookup(refs.drop_last(), id)
    }
}

/// [`image_lookup`] computed: a copy of the alt text and the image.
pub fn find_image(refs: &Vec<ImageRef>, id: &str) -> (r: Option<(String, ImageData)>)
    ensures
        match image_lookup(image_refs_view(refs@), id@) {
            Some(v) => r matches Some(p) && p.0@ == v.alt && p.1@ == v.data,
            None => r is None,
        },
{
    let ghost rv = image_refs_view(refs@);
    let mut n = refs.len();
    assert(rv.take(n as int) =~= rv);
    while n > 0
        invariant
            n <= refs@.len(),
            rv == image_refs_view(refs@),
            image_lookup(rv.take(n as int), id@) == image_lookup(rv, id@),
        decreases n,
    {
        assert(rv.take(n as int).drop_last() =~= rv.take(n - 1));
        assert(rv.take(n as int).last() == image_ref_view(refs@[n - 1]));
        if str_eq(refs[n - 1].id.as_str(), id) {
            return Some((refs[n - 1].alt.clone(), refs[n - 1].data.deep_copy()));
        }
        n = n - 1;
    }
    None
}

impl OoxmlPackage {
    fn relationship_exec(&self, dir: &str, acc: &mut Vec<ImageRef>, attrs: &Vec<XmlAttr>)
        ensures
            image_refs_view(final(acc)@) == relationship(self@, dir@, image_refs_view(old(acc)@), attrs_view(attrs@)),
    {
        let id = attr_val(attrs, "Id");
        let target = attr_val(attrs, "Target");
        let mode = attr_val(attrs, "TargetMode");
        match (id, target) {
            (Some(id), Some(t)) => {
                let external = match &mode {
                    Some(m) => str_eq(m.as_str(), "External"),
                    None => false,
                };
                if external {
                    return;
                }
                let p = resolve_path(dir, t.as_str());
                match self.get(p.as_str()) {
                    Some(bytes) => {
                        let mime = mime_from_path(p.as_str());
                        if !str_eq(mime, "application/octet-stream") {
                            let r = ImageRef {
                                id,
                                alt: stem_of(p.as_str()),
                                data: ImageData::Base64 { mime: mime.to_string(), data: base64_encode(bytes) },
                            };
                            let ghost old_v = image_refs_view(acc@);
                            acc.push(r);
                            assert(image_refs_view(acc@) =~= old_v.push(image_ref_view(r)));
                        }
                    },
                    None => {},
                }
            },
            _ => {},
        }
    }

    /// The images that `part` refers to: the `Relationship` entries of its
    /// relationships part (`dir/_rels/name.rels`) whose internal target,
    /// resolved against the part's directory, is an image entry of the package.
    pub fn image_rels(&self, part: &str, fmt: &'static str) -> (r: Result<Vec<ImageRef>, ParseError>)
        ensures
            match r {
                Ok(v) => image_rels_spec(self@, part@, fmt@) == Ok::<Seq<ImageRefV>, ParseErrorV>(image_refs_view(v@)),
                Err(e) => image_rels_spec(self@, part@, fmt@) == Err::<Seq<ImageRefV>, ParseErrorV>(e@),
            },
    {
        let rp = rels_path_of(part);
        let xml = match self.get_str(rp.as_str(), fmt) {
            Err(e) => return Err(e),
            Ok(None) => {
                let v: Vec<ImageRef> = Vec::new();
                assert(image_refs_view(v@) =~= Seq::<ImageRefV>::empty());
                return Ok(v);
            },
            Ok(Some(x)) => x,
        };
        let dir = part_dir_of(part);
        let (evs, err) = read_all(xml.as_str());
        match err {
            Some(m) => return Err(ParseError::markup(fmt, concat3(rp.as_str(), ": ", m.as_str()))),
            None => {},
        }
        let ghost ev = events_view(evs@);
        let mut acc: Vec<ImageRef> = Vec::new();
        let mut i: usize = 0;
        assert(image_refs_view(acc@) =~= Seq::<ImageRefV>::empty());
        assert(ev.take(0) =~= Seq::<XmlEventV>::empty());
        while i < evs.len()
            invariant
                i <= evs@.len(),
                ev == events_view(evs@),
                image_refs_view(acc@) == rel_fold(self@, dir@, ev.take(i as int)),
            decreases evs@.len() - i,
        {
            assert(ev.take(i + 1).drop_last() =~= ev.take(i as int));
            assert(ev.take(i + 1).last() == event_view(evs@[i as int]));
            match &evs[i] {
                XmlEvent::Start { name, attrs } | XmlEvent::Empty { name, attrs } => {
                    let ln = local_name_of(name.as_str());
                    if str_eq(ln.as_str(), "Relationship") {
                        self.relationship_exec(dir.as_str(), &mut acc, attrs);
                    }
                },
                _ => {},
            }
            i = i + 1;
        }
        assert(ev.take(evs@.len() as int) =~= ev);
        Ok(acc)
    }
}
} // verus!
