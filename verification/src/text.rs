//! Character-level text utilities shared by the parsers, the renderer and the chunker.

use vstd::prelude::*;
use vstd::utf8::{codepoint_width_3, decode_utf8, valid_utf8};

verus! {

/// The Unicode `White_Space` property, which is what `char::is_whitespace`,
/// `str::trim` and `str::split_whitespace` go by.
pub open spec fn is_ws(c: char) -> bool {
    let u = c as u32;
    ||| 0x09 <= u <= 0x0D
    ||| u == 0x20
    ||| u == 0x85
    ||| u == 0xA0
    ||| u == 0x1680
    ||| 0x2000 <= u <= 0x200A
    ||| u == 0x2028
    ||| u == 0x2029
    ||| u == 0x202F
    ||| u == 0x205F
    ||| u == 0x3000
}

pub fn is_whitespace(c: char) -> (r: bool)
    ensures
        r == is_ws(c),
{
    let u = c as u32;
    (0x09 <= u && u <= 0x0D) || u == 0x20 || u == 0x85 || u == 0xA0 || u == 0x1680 || (0x2000 <= u
        && u <= 0x200A) || u == 0x2028 || u == 0x2029 || u == 0x202F || u == 0x205F || u == 0x3000
}

/// The words of `s` (maximal runs of non-whitespace), joined by single spaces:
/// `s.split_whitespace().collect::<Vec<_>>().join(" ")`.
pub open spec fn collapse(s: Seq<char>) -> Seq<char>
    decreases s.len(),
{
    if s.len() == 0 {
        Seq::empty()
    } else {
        let p = s.drop_last();
        let c = s.last();
        let r = collapse(p);
        if is_ws(c) {
            r
        } else if r.len() > 0 && is_ws(p.last()) {
            r + seq![' ', c]
        } else {
            r.push(c)
        }
    }
}

/// Every character is whitespace (`s.trim().is_empty()`).
pub open spec fn is_blank(s: Seq<char>) -> bool {
    forall|i: int| 0 <= i < s.len() ==> is_ws(#[trigger] s[i])
}

/// `String::push`.
#[verifier::external_body]
pub fn push_char(s: &mut String, c: char)
    ensures
        final(s)@ == old(s)@.push(c),
{
    s.push(c);
}

/// `<str as PartialEq>::eq`: string equality compares the characters.
#[verifier::external_body]
pub fn str_eq(a: &str, b: &str) -> (r: bool)
    ensures
        r == (a@ == b@),
{
    a == b
}

/// The characters of `s`.
pub fn chars_of(s: &str) -> (r: Vec<char>)
    ensures
        r@ == s@,
{
    let mut v: Vec<char> = Vec::new();
    for c in it: s.chars()
        invariant
            it.seq() == s@,
            v@ == it.seq().take(it.index() as int),
    {
        v.push(c);
    }
    v
}

/// A string made of the given characters.
pub fn string_of(cs: &[char]) -> (r: String)
    ensures
        r@ == cs@,
{
    let mut out = String::new();
    let mut i: usize = 0;
    while i < cs.len()
        invariant
            i <= cs@.len(),
            out@ == cs@.take(i as int),
        decreases cs@.len() - i,
    {
        push_char(&mut out, cs[i]);
        i = i + 1;
        assert(out@ =~= cs@.take(i as int));
    }
    assert(cs@.take(cs@.len() as int) =~= cs@);
    out
}

/// `s.split_whitespace().collect::<Vec<_>>().join(" ")`.
pub fn collapse_ws(s: &str) -> (r: String)
    ensures
        r@ == collapse(s@),
{
    let cs = chars_of(s);
    let mut out = String::new();
    let mut i: usize = 0;
    while i < cs.len()
        invariant
            cs@ == s@,
            i <= cs@.len(),
            out@ == collapse(cs@.take(i as int)),
        decreases cs@.len() - i,
    {
        let c = cs[i];
        let prefix = Ghost(cs@.take(i as int));
        assert(cs@.take(i + 1).drop_last() =~= prefix@);
        if is_whitespace(c) {
        } else if !out.as_str().is_empty() && is_whitespace(cs[i - 1]) {
            proof {
                assert(i > 0);
                assert(prefix@.last() == cs@[i - 1]);
            }
            push_char(&mut out, ' ');
            push_char(&mut out, c);
        } else {
            proof {
                if out@.len() > 0 {
                    assert(i > 0);
                    assert(prefix@.last() == cs@[i - 1]);
                }
            }
            push_char(&mut out, c);
        }
        i = i + 1;
        proof {
            assert(out@ =~= collapse(cs@.take(i as int)));
        }
    }
    assert(cs@.take(cs@.len() as int) =~= cs@);
    out
}

/// `s.trim().is_empty()`.
pub fn is_blank_str(s: &str) -> (r: bool)
    ensures
        r == is_blank(s@),
{
    for c in it: s.chars()
        invariant
            it.seq() == s@,
            forall|j: int| 0 <= j < it.index() ==> is_ws(#[trigger] s@[j]),
    {
        if !is_whitespace(c) {
            return false;
        }
    }
    true
}

/// Whether `s` contains the character `c`.
pub fn contains_char(s: &str, c: char) -> (r: bool)
    ensures
        r == s@.contains(c),
{
    for d in it: s.chars()
        invariant
            it.seq() == s@,
            forall|j: int| 0 <= j < it.index() ==> #[trigger] s@[j] != c,
    {
        if d == c {
            assert(s@[it.index() as int] == c);
            return true;
        }
    }
    false
}

/// A copy of `s`.
pub fn copy_string(s: &String) -> (r: String)
    ensures
        r@ == s@,
{
    s.clone()
}

/// `s + t`.
pub fn concat(s: &str, t: &str) -> (r: String)
    ensures
        r@ == s@ + t@,
{
    let mut out = s.to_owned();
    out.append(t);
    out
}

/// `v[lo..hi].to_vec()`.
pub fn sub_chars(v: &Vec<char>, lo: usize, hi: usize) -> (r: Vec<char>)
    requires
        lo <= hi <= v@.len(),
    ensures
        r@ == v@.subrange(lo as int, hi as int),
{
    let mut out: Vec<char> = Vec::new();
    let mut i = lo;
    while i < hi
        invariant
            lo <= i <= hi <= v@.len(),
            out@ == v@.subrange(lo as int, i as int),
        decreases hi - i,
    {
        out.push(v[i]);
        i = i + 1;
        assert(out@ =~= v@.subrange(lo as int, i as int));
    }
    out
}


/// `s` starts with `p`.
pub open spec fn has_prefix(s: Seq<char>, p: Seq<char>) -> bool {
    p.len() <= s.len() && s.take(p.len() as int) == p
}

/// `s` ends with `t`.
pub open spec fn has_suffix(s: Seq<char>, t: Seq<char>) -> bool {
    t.len() <= s.len() && s.skip(s.len() - t.len()) == t
}

/// `str::starts_with` with a string pattern.
pub fn starts_with_str(s: &str, p: &str) -> (r: bool)
    ensures
        r == has_prefix(s@, p@),
{
    let cs = chars_of(s);
    let ps = chars_of(p);
    if ps.len() > cs.len() {
        return false;
    }
    let mut i: usize = 0;
    while i < ps.len()
        invariant
            cs@ == s@,
            ps@ == p@,
            ps@.len() <= cs@.len(),
            i <= ps@.len(),
            forall|k: int| 0 <= k < i ==> cs@[k] == ps@[k],
        decreases ps@.len() - i,
    {
        if cs[i] != ps[i] {
            assert(s@.take(p@.len() as int)[i as int] != p@[i as int]);
            return false;
        }
        i = i + 1;
    }
    assert(s@.take(p@.len() as int) =~= p@);
    true
}

/// `str::ends_with` with a string pattern.
pub fn ends_with_str(s: &str, t: &str) -> (r: bool)
    ensures
        r == has_suffix(s@, t@),
{
    let cs = chars_of(s);
    let ts = chars_of(t);
    if ts.len() > cs.len() {
        return false;
    }
    let off = cs.len() - ts.len();
    let mut i: usize = 0;
    while i < ts.len()
        invariant
            cs@ == s@,
            ts@ == t@,
            ts@.len() <= cs@.len(),
            off == cs@.len() - ts@.len(),
            off + ts.len() == cs.len(),
            i <= ts@.len(),
            forall|k: int| 0 <= k < i ==> cs@[off + k] == ts@[k],
        decreases ts@.len() - i,
    {
        if cs[off + i] != ts[i] {
            assert(s@.skip(off as int)[i as int] != t@[i as int]);
            return false;
        }
        i = i + 1;
    }
    assert(s@.skip(off as int) =~= t@);
    true
}

/// The message of the `std::str::Utf8Error` reported for bytes that are not UTF-8.
pub uninterp spec fn utf8_error_message(bytes: Seq<u8>) -> Seq<char>;

/// `std::str::from_utf8`: the decoded text, or the message of its error.
#[verifier::external_body]
pub fn utf8_decode(bytes: &[u8]) -> (r: Result<String, String>)
    ensures
        match r {
            Ok(s) => valid_utf8(bytes@) && s@ == decode_utf8(bytes@),
            Err(m) => !valid_utf8(bytes@) && m@ == utf8_error_message(bytes@),
        },
{
    match std::str::from_utf8(bytes) {
        Ok(s) => Ok(s.to_owned()),
        Err(e) => Err(e.to_string()),
    }
}

/// `s` without one leading byte-order mark.
pub open spec fn strip_bom(s: Seq<char>) -> Seq<char> {
    if s.len() > 0 && s[0] == '\u{feff}' {
        s.drop_first()
    } else {
        s
    }
}

/// `s.strip_prefix('\u{feff}').unwrap_or(s)`.
pub fn strip_bom_str(s: &str) -> (r: String)
    ensures
        r@ == strip_bom(s@),
{
    let cs = chars_of(s);
    if cs.len() > 0 && cs[0] == '\u{feff}' {
        let rest = sub_chars(&cs, 1, cs.len());
        assert(rest@ =~= s@.drop_first());
        string_of(rest.as_slice())
    } else {
        s.to_owned()
    }
}

/// The UTF-8 encoding of the byte-order mark.
pub open spec fn utf8_bom() -> Seq<u8> {
    seq![0xEFu8, 0xBBu8, 0xBFu8]
}

/// Bytes behind an encoded byte-order mark are valid exactly when they are
/// valid alone, and then decode to the mark followed by their own text.
pub proof fn lemma_utf8_bom_prefix(b: Seq<u8>)
    ensures
        valid_utf8(utf8_bom() + b) == valid_utf8(b),
        valid_utf8(b) ==> decode_utf8(utf8_bom() + b) == seq!['\u{feff}'] + decode_utf8(b),
{
    let s = utf8_bom() + b;
    assert(s[0] == 0xEFu8 && s[1] == 0xBBu8 && s[2] == 0xBFu8);
    assert((((0xEFu8 & 0x0F) as u32) << 12) | (((0xBBu8 & 0x3f) as u32) << 6) | ((0xBFu8 & 0x3f) as u32)
        == 0xFEFFu32) by (bit_vector);
    assert(codepoint_width_3(0xEFu8, 0xBBu8, 0xBFu8) == 0xFEFFu32);
    assert(s.subrange(3, s.len() as int) =~= b);
    assert((0xFEFFu32 as char) == '\u{feff}');
}

} // verus!
