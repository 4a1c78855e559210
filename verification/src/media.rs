//! Embedded-media helpers: standard base64, image MIME type from a file
//! extension, and the file stem used as an image's alt text.

use vstd::prelude::*;
use crate::text::{chars_of, push_char, str_eq, string_of, sub_chars};

verus! {

// ── base64 (RFC 4648, with padding) ─────────────────────────────

/// The base64 alphabet: `A-Z`, `a-z`, `0-9`, `+`, `/`.
pub open spec fn b64_char(v: int) -> char {
    if v < 26 {
        (65 + v) as char
    } else if v < 52 {
        (97 + (v - 26)) as char
    } else if v < 62 {
        (48 + (v - 52)) as char
    } else if v == 62 {
        '+'
    } else {
        '/'
    }
}

/// One group of up to three bytes: four alphabet characters, the last one or
/// two replaced by `=` when the group has two or one bytes.
pub open spec fn b64_group(g: Seq<u8>) -> Seq<char> {
    let b0 = g[0] as int;
    let b1 = if g.len() > 1 { g[1] as int } else { 0 };
    let b2 = if g.len() > 2 { g[2] as int } else { 0 };
    let n = b0 * 65536 + b1 * 256 + b2;
    seq![
        b64_char(n / 262144),
        b64_char((n / 4096) % 64),
        if g.len() > 1 { b64_char((n / 64) % 64) } else { '=' },
        if g.len() > 2 { b64_char(n % 64) } else { '=' },
    ]
}

/// Standard base64 of `s`: the groups of three bytes encoded in order.
pub open spec fn base64_spec(s: Seq<u8>) -> Seq<char>
    decreases s.len(),
{
    if s.len() == 0 {
        Seq::empty()
    } else if s.len() <= 3 {
        b64_group(s)
    } else {
        b64_group(s.take(3)) + base64_spec(s.skip(3))
    }
}

fn b64_char_exec(v: u32) -> (c: char)
    requires
        v < 64,
    ensures
        c == b64_char(v as int),
{
    if v < 26 {
        ((65 + v) as u8) as char
    } else if v < 52 {
        ((97 + (v - 26)) as u8) as char
    } else if v < 62 {
        ((48 + (v - 52)) as u8) as char
    } else if v == 62 {
        '+'
    } else {
        '/'
    }
}

proof fn lemma_sextets(b0: u32, b1: u32, b2: u32)
    requires
        b0 < 256,
        b1 < 256,
        b2 < 256,
    ensures
        ({
            let n = (b0 << 16) | (b1 << 8) | b2;
            let m = b0 * 65536 + b1 * 256 + b2;
            &&& (n >> 18) & 0x3F == m / 262144
            &&& (n >> 12) & 0x3F == (m / 4096) % 64
            &&& (n >> 6) & 0x3F == (m / 64) % 64
            &&& n & 0x3F == m % 64
        }),
{
    assert(b0 < 256 && b1 < 256 && b2 < 256 ==> ((b0 << 16) | (b1 << 8) | b2) == b0 * 65536 + b1
        * 256 + b2) by (bit_vector);
    let n = (b0 << 16) | (b1 << 8) | b2;
    assert(n < 16777216);
    assert(n < 16777216 ==> (n >> 18) & 0x3F == n / 262144) by (bit_vector);
    assert((n >> 12) & 0x3F == (n / 4096) % 64) by (bit_vector);
    assert((n >> 6) & 0x3F == (n / 64) % 64) by (bit_vector);
    assert(n & 0x3F == n % 64) by (bit_vector);
}

/// Encodes bytes as standard base64 (RFC 4648) with `=` padding.
pub fn base64_encode(bytes: &[u8]) -> (r: String)
    ensures
        r@ == base64_spec(bytes@),
{
    let mut out = String::new();
    let mut i: usize = 0;
    assert(bytes@.skip(0) =~= bytes@);
    assert(out@ + base64_spec(bytes@) =~= base64_spec(bytes@));
    while i < bytes.len()
        invariant
            i <= bytes@.len(),
            out@ + base64_spec(bytes@.skip(i as int)) == base64_spec(bytes@),
        decreases bytes@.len() - i,
    {
        let rest = Ghost(bytes@.skip(i as int));
        let len = bytes.len() - i;
        let b0 = bytes[i] as u32;
        let b1: u32 = if len > 1 { bytes[i + 1] as u32 } else { 0 };
        let b2: u32 = if len > 2 { bytes[i + 2] as u32 } else { 0 };
        proof {
            lemma_sextets(b0, b1, b2);
        }
        let n: u32 = (b0 << 16) | (b1 << 8) | b2;
        let ghost g = if len <= 3 { rest@ } else { rest@.take(3) };
        let ghost old_out = out@;
        push_char(&mut out, b64_char_exec((n >> 18) & 0x3F));
        push_char(&mut out, b64_char_exec((n >> 12) & 0x3F));
        if len > 1 {
            push_char(&mut out, b64_char_exec((n >> 6) & 0x3F));
        } else {
            push_char(&mut out, '=');
        }
        if len > 2 {
            push_char(&mut out, b64_char_exec(n & 0x3F));
        } else {
            push_char(&mut out, '=');
        }
        assert(out@ =~= old_out + b64_group(g));
        if len <= 3 {
            assert(bytes@.skip(bytes@.len() as int) =~= Seq::<u8>::empty());
            i = bytes.len();
        } else {
            assert(rest@.skip(3) =~= bytes@.skip(i + 3));
            i = i + 3;
        }
    }
    assert(bytes@.skip(bytes@.len() as int) =~= Seq::<u8>::empty());
    assert(bytes@.skip(0) =~= bytes@);
    out
}

/// The encoded length is four characters per started group of three bytes.
pub proof fn law_base64_length(s: Seq<u8>)
    ensures
        base64_spec(s).len() == 4 * ((s.len() + 2) / 3),
    decreases s.len(),
{
    if s.len() > 3 {
        law_base64_length(s.skip(3));
    }
}

/// Encoding a concatenation whose first part is a whole number of groups is
/// the concatenation of the encodings.
pub proof fn law_base64_concat(a: Seq<u8>, b: Seq<u8>)
    requires
        a.len() % 3 == 0,
    ensures
        base64_spec(a + b) == base64_spec(a) + base64_spec(b),
    decreases a.len(),
{
    if a.len() == 0 {
        assert(a + b =~= b);
    } else {
        law_base64_concat(a.skip(3), b);
        assert((a + b).take(3) =~= a.take(3));
        assert((a + b).skip(3) =~= a.skip(3) + b);
        if a.len() == 3 {
            assert(a.take(3) =~= a);
            if b.len() == 0 {
                assert(a + b =~= a);
            }
        }
    }
}

// ── file names ──────────────────────────────────────────────────

/// The index of the last occurrence of `c`, or -1.
pub open spec fn last_index_of(s: Seq<char>, c: char) -> int
    decreases s.len(),
{
    if s.len() == 0 {
        -1
    } else if s.last() == c {
        s.len() - 1
    } else {
        last_index_of(s.drop_last(), c)
    }
}

pub open spec fn is_path_sep(c: char) -> bool {
    c == '/' || c == '\\'
}

/// The index of the last `/` or `\`, or -1.
pub open spec fn last_sep_index(s: Seq<char>) -> int
    decreases s.len(),
{
    if s.len() == 0 {
        -1
    } else if is_path_sep(s.last()) {
        s.len() - 1
    } else {
        last_sep_index(s.drop_last())
    }
}

/// What follows the last `.` (the whole text when there is none):
/// `path.rsplit('.').next()`.
pub open spec fn extension_part(path: Seq<char>) -> Seq<char> {
    path.skip(last_index_of(path, '.') + 1)
}

pub open spec fn ascii_lower_char(c: char) -> char {
    if 'A' <= c && c <= 'Z' {
        ((c as u32) + 32) as char
    } else {
        c
    }
}

/// `str::to_ascii_lowercase`.
pub open spec fn ascii_lower(s: Seq<char>) -> Seq<char> {
    s.map_values(|c: char| ascii_lower_char(c))
}

/// The image MIME type for a path's (case-insensitive) extension.
pub open spec fn mime_spec(path: Seq<char>) -> Seq<char> {
    let e = ascii_lower(extension_part(path));
    if e == "png"@ {
        "image/png"@
    } else if e == "jpg"@ || e == "jpeg"@ || e == "jpe"@ {
        "image/jpeg"@
    } else if e == "gif"@ {
        "image/gif"@
    } else if e == "bmp"@ {
        "image/bmp"@
    } else if e == "tif"@ || e == "tiff"@ {
        "image/tiff"@
    } else if e == "webp"@ {
        "image/webp"@
    } else if e == "svg"@ {
        "image/svg+xml"@
    } else if e == "emf"@ {
        "image/emf"@
    } else if e == "wmf"@ {
        "image/wmf"@
    } else {
        "application/octet-stream"@
    }
}

/// The file-name part of a path (after the last `/` or `\`).
pub open spec fn file_part(path: Seq<char>) -> Seq<char> {
    path.skip(last_sep_index(path) + 1)
}

/// The file name without its last extension; a name whose only `.` is its
/// first character, or that has no `.`, is kept whole.
pub open spec fn stem_spec(path: Seq<char>) -> Seq<char> {
    let f = file_part(path);
    let k = last_index_of(f, '.');
    if k > 0 {
        f.take(k)
    } else {
        f
    }
}

/// One past the last index of `c` (0 when absent).
pub fn after_last_index(cs: &Vec<char>, c: char) -> (k: usize)
    ensures
        k == last_index_of(cs@, c) + 1,
{
    let mut n = cs.len();
    assert(cs@.take(n as int) =~= cs@);
    while n > 0
        invariant
            n <= cs@.len(),
            last_index_of(cs@.take(n as int), c) == last_index_of(cs@, c),
        decreases n,
    {
        assert(cs@.take(n as int).drop_last() =~= cs@.take(n - 1));
        if cs[n - 1] == c {
            return n;
        }
        n = n - 1;
    }
    0
}

/// One past the last index of a path separator (0 when absent).
fn after_last_sep(cs: &Vec<char>) -> (k: usize)
    ensures
        k == last_sep_index(cs@) + 1,
{
    let mut n = cs.len();
    assert(cs@.take(n as int) =~= cs@);
    while n > 0
        invariant
            n <= cs@.len(),
            last_sep_index(cs@.take(n as int)) == last_sep_index(cs@),
        decreases n,
    {
        assert(cs@.take(n as int).drop_last() =~= cs@.take(n - 1));
        if cs[n - 1] == '/' || cs[n - 1] == '\\' {
            return n;
        }
        n = n - 1;
    }
    0
}

proof fn lemma_last_index_range(s: Seq<char>, c: char)
    ensures
        -1 <= last_index_of(s, c) < s.len(),
        last_index_of(s, c) >= 0 ==> s[last_index_of(s, c)] == c,
    decreases s.len(),
{
    if s.len() > 0 && s.last() != c {
        lemma_last_index_range(s.drop_last(), c);
    }
}

proof fn lemma_last_sep_range(s: Seq<char>)
    ensures
        -1 <= last_sep_index(s) < s.len(),
    decreases s.len(),
{
    if s.len() > 0 && !is_path_sep(s.last()) {
        lemma_last_sep_range(s.drop_last());
    }
}

/// `s.to_ascii_lowercase()`.
pub fn ascii_lowercase(s: &[char]) -> (r: String)
    ensures
        r@ == ascii_lower(s@),
{
    let mut out = String::new();
    let mut i: usize = 0;
    while i < s.len()
        invariant
            i <= s@.len(),
            out@ == ascii_lower(s@.take(i as int)),
        decreases s@.len() - i,
    {
        let c = s[i];
        let l = if 'A' <= c && c <= 'Z' {
            ((c as u32 + 32) as u8) as char
        } else {
            c
        };
        push_char(&mut out, l);
        i = i + 1;
        assert(out@ =~= ascii_lower(s@.take(i as int)));
    }
    assert(s@.take(s@.len() as int) =~= s@);
    out
}

/// The image MIME type guessed from a path's extension;
/// unknown extensions give `application/octet-stream`.
pub fn mime_from_path(path: &str) -> (r: &'static str)
    ensures
        r@ == mime_spec(path@),
{
    let cs = chars_of(path);
    let start = after_last_index(&cs, '.');
    proof {
        lemma_last_index_range(cs@, '.');
    }
    let e = ascii_lowercase(&cs.as_slice()[start..cs.len()]);
    assert(cs@.subrange(start as int, cs@.len() as int) =~= extension_part(path@));
    let e = e.as_str();
    if str_eq(e, "png") {
        "image/png"
    } else if str_eq(e, "jpg") || str_eq(e, "jpeg") || str_eq(e, "jpe") {
        "image/jpeg"
    } else if str_eq(e, "gif") {
        "image/gif"
    } else if str_eq(e, "bmp") {
        "image/bmp"
    } else if str_eq(e, "tif") || str_eq(e, "tiff") {
        "image/tiff"
    } else if str_eq(e, "webp") {
        "image/webp"
    } else if str_eq(e, "svg") {
        "image/svg+xml"
    } else if str_eq(e, "emf") {
        "image/emf"
    } else if str_eq(e, "wmf") {
        "image/wmf"
    } else {
        "application/octet-stream"
    }
}

/// The path's file name without directories and without its extension
/// (the default alt text of an extracted image).
pub fn stem_of(path: &str) -> (r: String)
    ensures
        r@ == stem_spec(path@),
{
    let cs = chars_of(path);
    let start = after_last_sep(&cs);
    proof {
        lemma_last_sep_range(cs@);
    }
    let file: Vec<char> = sub_chars(&cs, start, cs.len());
    assert(file@ =~= file_part(path@));
    let k1 = after_last_index(&file, '.');
    proof {
        lemma_last_index_range(file@, '.');
    }
    if k1 > 1 {
        let r = string_of(&file.as_slice()[0..k1 - 1]);
        assert(r@ =~= file@.take(k1 - 1));
        r
    } else {
        string_of(file.as_slice())
    }
}

proof fn lemma_lower_char(c: char)
    ensures
        ascii_lower_char(ascii_lower_char(c)) == ascii_lower_char(c),
        ascii_lower_char(c) == '.' <==> c == '.',
{
    if 'A' <= c && c <= 'Z' {
        let l = ((c as u32) + 32) as char;
        assert(l as u32 == (c as u32) + 32);
        assert('a' <= l && l <= 'z');
    }
}

proof fn lemma_last_dot_lower(s: Seq<char>)
    ensures
        last_index_of(ascii_lower(s), '.') == last_index_of(s, '.'),
    decreases s.len(),
{
    if s.len() > 0 {
        lemma_last_dot_lower(s.drop_last());
        lemma_lower_char(s.last());
        assert(ascii_lower(s).drop_last() =~= ascii_lower(s.drop_last()));
    }
}

/// The MIME type of a path does not depend on the letter case of the path:
/// `a/B.PNG` and `a/b.png` are both `image/png`.
pub proof fn law_mime_ignores_case(path: Seq<char>)
    ensures
        mime_spec(ascii_lower(path)) == mime_spec(path),
{
    lemma_last_dot_lower(path);
    lemma_last_index_range(path, '.');
    let e = extension_part(path);
    assert(extension_part(ascii_lower(path)) =~= ascii_lower(e));
    assert forall|i: int| 0 <= i < e.len() implies #[trigger] ascii_lower(ascii_lower(e))[i] == ascii_lower(e)[i] by {
        lemma_lower_char(e[i]);
    }
    assert(ascii_lower(ascii_lower(e)) =~= ascii_lower(e));
}

/// The characters base64 writes besides the padding.
pub open spec fn is_b64_alphabet(c: char) -> bool {
    ('A' <= c && c <= 'Z') || ('a' <= c && c <= 'z') || ('0' <= c && c <= '9') || c == '+' || c == '/'
}

proof fn lemma_b64_char_alphabet(v: int)
    requires
        v >= 0,
    ensures
        is_b64_alphabet(b64_char(v)),
{
    if v < 26 {
        let c = (65 + v) as char;
        assert(c as u32 == 65 + v);
    } else if v < 52 {
        let c = (97 + (v - 26)) as char;
        assert(c as u32 == 97 + (v - 26));
    } else if v < 62 {
        let c = (48 + (v - 52)) as char;
        assert(c as u32 == 48 + (v - 52));
    }
}

proof fn lemma_group_alphabet(g: Seq<u8>)
    requires
        1 <= g.len() <= 3,
    ensures
        b64_group(g).len() == 4,
        forall|i: int| 0 <= i < 4 - (3 - g.len()) ==> is_b64_alphabet(#[trigger] b64_group(g)[i]),
        forall|i: int| 4 - (3 - g.len()) <= i < 4 ==> #[trigger] b64_group(g)[i] == '=',
{
    let b0 = g[0] as int;
    let b1 = if g.len() > 1 { g[1] as int } else { 0 };
    let b2 = if g.len() > 2 { g[2] as int } else { 0 };
    let n = b0 * 65536 + b1 * 256 + b2;
    assert(n >= 0);
    lemma_b64_char_alphabet(n / 262144);
    lemma_b64_char_alphabet((n / 4096) % 64);
    lemma_b64_char_alphabet((n / 64) % 64);
    lemma_b64_char_alphabet(n % 64);
}

/// Base64 text is made of the base64 alphabet, followed by as many `=` as the
/// last group lacks bytes (none, one or two), and by nothing else.
pub proof fn law_base64_alphabet_and_padding(s: Seq<u8>)
    ensures
        ({
            let out = base64_spec(s);
            let pad = (3 - s.len() % 3) % 3;
            &&& forall|i: int| 0 <= i < out.len() - pad ==> is_b64_alphabet(#[trigger] out[i])
            &&& forall|i: int| out.len() - pad <= i < out.len() ==> #[trigger] out[i] == '='
        }),
    decreases s.len(),
{
    law_base64_length(s);
    if s.len() == 0 {
    } else if s.len() <= 3 {
        lemma_group_alphabet(s);
    } else {
        law_base64_alphabet_and_padding(s.skip(3));
        law_base64_length(s.skip(3));
        lemma_group_alphabet(s.take(3));
        let h = b64_group(s.take(3));
        let t = base64_spec(s.skip(3));
        let out = base64_spec(s);
        assert(out == h + t);
        assert((3 - s.len() % 3) % 3 == (3 - s.skip(3).len() % 3) % 3);
        assert forall|i: int| 0 <= i < out.len() - (3 - s.len() % 3) % 3 implies is_b64_alphabet(#[trigger] out[i]) by {
            if i < 4 {
                assert(out[i] == h[i]);
            } else {
                assert(out[i] == t[i - 4]);
            }
        }
        assert forall|i: int| out.len() - (3 - s.len() % 3) % 3 <= i < out.len() implies #[trigger] out[i] == '=' by {
            assert(out[i] == t[i - 4]);
        }
    }
}

/// The value of a base64 alphabet character (`=` and others: 0).
pub open spec fn b64_value(c: char) -> int {
    if 'A' <= c && c <= 'Z' {
        c as int - 65
    } else if 'a' <= c && c <= 'z' {
        c as int - 97 + 26
    } else if '0' <= c && c <= '9' {
        c as int - 48 + 52
    } else if c == '+' {
        62
    } else if c == '/' {
        63
    } else {
        0
    }
}

/// The bytes of one group of four base64 characters; `=` in third or fourth
/// place marks a group of one or two bytes.
pub open spec fn b64_decode_group(q: Seq<char>) -> Seq<u8> {
    let v = b64_value(q[0]) * 262144 + b64_value(q[1]) * 4096 + b64_value(q[2]) * 64 + b64_value(q[3]);
    let b0 = (v / 65536) as u8;
    let b1 = ((v / 256) % 256) as u8;
    let b2 = (v % 256) as u8;
    if q[2] == '=' {
        seq![b0]
    } else if q[3] == '=' {
        seq![b0, b1]
    } else {
        seq![b0, b1, b2]
    }
}

/// Standard (RFC 4648) base64 decoding of text made of whole groups of four.
pub open spec fn base64_decode(t: Seq<char>) -> Seq<u8>
    decreases t.len(),
{
    if t.len() < 4 {
        Seq::empty()
    } else {
        b64_decode_group(t.take(4)) + base64_decode(t.skip(4))
    }
}

proof fn lemma_b64_value(x: int)
    requires
        0 <= x < 64,
    ensures
        b64_value(b64_char(x)) == x,
        b64_char(x) != '=',
{
    if x < 26 {
        let c = (65 + x) as char;
        assert(c as u32 == 65 + x);
    } else if x < 52 {
        let c = (97 + (x - 26)) as char;
        assert(c as u32 == 97 + (x - 26));
    } else if x < 62 {
        let c = (48 + (x - 52)) as char;
        assert(c as u32 == 48 + (x - 52));
    }
}

proof fn lemma_group_arith(b0: int, b1: int, b2: int)
    requires
        0 <= b0 < 256,
        0 <= b1 < 256,
        0 <= b2 < 256,
    ensures
        ({
            let n = b0 * 65536 + b1 * 256 + b2;
            &&& 0 <= n / 262144 < 64
            &&& n / 262144 * 262144 + (n / 4096) % 64 * 4096 + (n / 64) % 64 * 64 + n % 64 == n
            &&& n / 65536 == b0
            &&& (n / 256) % 256 == b1
            &&& n % 256 == b2
            &&& (b2 == 0 ==> n % 64 == 0)
            &&& (b1 == 0 && b2 == 0 ==> (n / 64) % 64 == 0)
        }),
{
    let n = b0 * 65536 + b1 * 256 + b2;
    assert(0 <= n / 262144 < 64) by (nonlinear_arith)
        requires
            n == b0 * 65536 + b1 * 256 + b2,
            0 <= b0 < 256,
            0 <= b1 < 256,
            0 <= b2 < 256,
    ;
    assert(n / 262144 * 262144 + (n / 4096) % 64 * 4096 + (n / 64) % 64 * 64 + n % 64 == n) by (nonlinear_arith)
        requires
            n >= 0,
    ;
    assert(n / 65536 == b0 && (n / 256) % 256 == b1 && n % 256 == b2) by (nonlinear_arith)
        requires
            n == b0 * 65536 + b1 * 256 + b2,
            0 <= b0 < 256,
            0 <= b1 < 256,
            0 <= b2 < 256,
    ;
    assert(b2 == 0 ==> n % 64 == 0) by (nonlinear_arith)
        requires
            n == b0 * 65536 + b1 * 256 + b2,
    ;
    assert(b1 == 0 && b2 == 0 ==> (n / 64) % 64 == 0) by (nonlinear_arith)
        requires
            n == b0 * 65536 + b1 * 256 + b2,
            0 <= b0 < 256,
    ;
}

proof fn lemma_decode_group(g: Seq<u8>)
    requires
        1 <= g.len() <= 3,
    ensures
        b64_decode_group(b64_group(g)) == g,
{
    let b0 = g[0] as int;
    let b1 = if g.len() > 1 { g[1] as int } else { 0 };
    let b2 = if g.len() > 2 { g[2] as int } else { 0 };
    let n = b0 * 65536 + b1 * 256 + b2;
    lemma_group_arith(b0, b1, b2);
    let q = b64_group(g);
    lemma_b64_value(n / 262144);
    lemma_b64_value((n / 4096) % 64);
    lemma_b64_value((n / 64) % 64);
    lemma_b64_value(n % 64);
    let v = b64_value(q[0]) * 262144 + b64_value(q[1]) * 4096 + b64_value(q[2]) * 64 + b64_value(q[3]);
    assert(v == n);
    assert(b64_decode_group(q) =~= g);
}

/// Decoding the base64 of any bytes gives the bytes back.
#[verifier::rlimit(40)]
pub proof fn law_base64_round_trip(s: Seq<u8>)
    ensures
        base64_decode(base64_spec(s)) == s,
    decreases s.len(),
{
    if s.len() == 0 {
        assert(base64_spec(s) =~= Seq::<char>::empty());
    } else if s.len() <= 3 {
        lemma_decode_group(s);
        let q = b64_group(s);
        assert(base64_spec(s) == q);
        assert(q.len() == 4);
        assert(q.take(4) =~= q);
        assert(q.skip(4) =~= Seq::<char>::empty());
        assert(base64_decode(q.skip(4)) =~= Seq::<u8>::empty());
        assert(base64_decode(q) == b64_decode_group(q.take(4)) + base64_decode(q.skip(4)));
        assert(base64_decode(q) =~= s);
    } else {
        law_base64_round_trip(s.skip(3));
        lemma_decode_group(s.take(3));
        let h = b64_group(s.take(3));
        let t = base64_spec(s.skip(3));
        let q = base64_spec(s);
        assert(q == h + t);
        assert(h.len() == 4);
        assert(q.take(4) =~= h);
        assert(q.skip(4) =~= t);
        assert(base64_decode(q) == b64_decode_group(q.take(4)) + base64_decode(q.skip(4)));
        assert(s.take(3) + s.skip(3) =~= s);
    }
}

} // verus!
