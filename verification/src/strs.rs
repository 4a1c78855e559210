//! Sequence-of-characters helpers used to state and build rendered text:
//! joining, per-character mapping, decimal numerals, trimming and line splitting.

use vstd::prelude::*;
use crate::text::{chars_of, is_whitespace, is_ws, push_char, string_of};

verus! {

/// `parts` concatenated with `sep` between neighbours (`[..].join(sep)`).
pub open spec fn join(parts: Seq<Seq<char>>, sep: Seq<char>) -> Seq<char>
    decreases parts.len(),
{
    if parts.len() == 0 {
        Seq::empty()
    } else if parts.len() == 1 {
        parts[0]
    } else {
        join(parts.drop_last(), sep) + sep + parts.last()
    }
}

/// `parts` concatenated.
pub open spec fn concat_all(parts: Seq<Seq<char>>) -> Seq<char>
    decreases parts.len(),
{
    if parts.len() == 0 {
        Seq::empty()
    } else {
        concat_all(parts.drop_last()) + parts.last()
    }
}

/// Each character replaced by `f` of it.
pub open spec fn map_chars(s: Seq<char>, f: spec_fn(char) -> Seq<char>) -> Seq<char>
    decreases s.len(),
{
    if s.len() == 0 {
        Seq::empty()
    } else {
        map_chars(s.drop_last(), f) + f(s.last())
    }
}

pub proof fn lemma_map_chars_step(s: Seq<char>, i: int, f: spec_fn(char) -> Seq<char>)
    requires
        0 <= i < s.len(),
    ensures
        map_chars(s.take(i + 1), f) == map_chars(s.take(i), f) + f(s[i]),
{
    assert(s.take(i + 1).drop_last() =~= s.take(i));
}

pub proof fn lemma_join_step(parts: Seq<Seq<char>>, sep: Seq<char>, i: int)
    requires
        0 <= i < parts.len(),
    ensures
        join(parts.take(i + 1), sep) == if i == 0 {
            parts[0]
        } else {
            join(parts.take(i), sep) + sep + parts[i]
        },
{
    assert(parts.take(i + 1).drop_last() =~= parts.take(i));
}

pub proof fn lemma_concat_all_step(parts: Seq<Seq<char>>, i: int)
    requires
        0 <= i < parts.len(),
    ensures
        concat_all(parts.take(i + 1)) == concat_all(parts.take(i)) + parts[i],
{
    assert(parts.take(i + 1).drop_last() =~= parts.take(i));
}

/// The character of a decimal digit.
pub open spec fn digit_char(d: nat) -> char {
    if d == 0 { '0' }
    else if d == 1 { '1' }
    else if d == 2 { '2' }
    else if d == 3 { '3' }
    else if d == 4 { '4' }
    else if d == 5 { '5' }
    else if d == 6 { '6' }
    else if d == 7 { '7' }
    else if d == 8 { '8' }
    else { '9' }
}

/// The decimal numeral of `n` (what `{}` formatting prints for an unsigned integer).
pub open spec fn decimal(n: nat) -> Seq<char>
    decreases n,
{
    if n < 10 {
        seq![digit_char(n)]
    } else {
        decimal(n / 10).push(digit_char(n % 10))
    }
}

fn digit(d: usize) -> (c: char)
    requires
        d < 10,
    ensures
        c == digit_char(d as nat),
{
    if d == 0 { '0' }
    else if d == 1 { '1' }
    else if d == 2 { '2' }
    else if d == 3 { '3' }
    else if d == 4 { '4' }
    else if d == 5 { '5' }
    else if d == 6 { '6' }
    else if d == 7 { '7' }
    else if d == 8 { '8' }
    else { '9' }
}

/// `n.to_string()` for an unsigned integer.
pub fn decimal_string(n: usize) -> (s: String)
    ensures
        s@ == decimal(n as nat),
    decreases n,
{
    if n < 10 {
        let mut s = String::new();
        push_char(&mut s, digit(n));
        assert(s@ =~= decimal(n as nat));
        s
    } else {
        let mut s = decimal_string(n / 10);
        push_char(&mut s, digit(n % 10));
        s
    }
}

/// `s` without its leading whitespace (`str::trim_start`).
pub open spec fn trim_start(s: Seq<char>) -> Seq<char>
    decreases s.len(),
{
    if s.len() > 0 && is_ws(s[0]) {
        trim_start(s.drop_first())
    } else {
        s
    }
}

/// `s` without its trailing whitespace (`str::trim_end`).
pub open spec fn trim_end(s: Seq<char>) -> Seq<char>
    decreases s.len(),
{
    if s.len() > 0 && is_ws(s.last()) {
        trim_end(s.drop_last())
    } else {
        s
    }
}

/// `str::trim`.
pub open spec fn trim(s: Seq<char>) -> Seq<char> {
    trim_start(trim_end(s))
}

/// `s` without trailing copies of `c` (`str::trim_end_matches(c)`).
pub open spec fn trim_end_char(s: Seq<char>, c: char) -> Seq<char>
    decreases s.len(),
{
    if s.len() > 0 && s.last() == c {
        trim_end_char(s.drop_last(), c)
    } else {
        s
    }
}

pub fn trim_end_char_len(cs: &Vec<char>, c: char) -> (n: usize)
    ensures
        n <= cs@.len(),
        cs@.take(n as int) == trim_end_char(cs@, c),
{
    let mut n = cs.len();
    assert(cs@.take(n as int) =~= cs@);
    while n > 0 && cs[n - 1] == c
        invariant
            n <= cs@.len(),
            trim_end_char(cs@.take(n as int), c) == trim_end_char(cs@, c),
        decreases n,
    {
        assert(cs@.take(n as int).drop_last() =~= cs@.take(n - 1));
        n = n - 1;
    }
    n
}

pub fn trim_end_ws_len(cs: &Vec<char>) -> (n: usize)
    ensures
        n <= cs@.len(),
        cs@.take(n as int) == trim_end(cs@),
{
    let mut n = cs.len();
    assert(cs@.take(n as int) =~= cs@);
    while n > 0 && is_whitespace(cs[n - 1])
        invariant
            n <= cs@.len(),
            trim_end(cs@.take(n as int)) == trim_end(cs@),
        decreases n,
    {
        assert(cs@.take(n as int).drop_last() =~= cs@.take(n - 1));
        n = n - 1;
    }
    n
}

pub fn trim_start_ws_pos(cs: &Vec<char>, end: usize) -> (k: usize)
    requires
        end <= cs@.len(),
    ensures
        k <= end,
        cs@.subrange(k as int, end as int) == trim_start(cs@.take(end as int)),
{
    let mut k: usize = 0;
    assert(cs@.subrange(0, end as int) =~= cs@.take(end as int));
    while k < end && is_whitespace(cs[k])
        invariant
            k <= end <= cs@.len(),
            trim_start(cs@.subrange(k as int, end as int)) == trim_start(cs@.take(end as int)),
        decreases end - k,
    {
        assert(cs@.subrange(k as int, end as int).drop_first() =~= cs@.subrange(k + 1, end as int));
        k = k + 1;
    }
    k
}

/// `s.trim().to_string()`.
pub fn trim_string(s: &str) -> (r: String)
    ensures
        r@ == trim(s@),
{
    let cs = chars_of(s);
    let e = trim_end_ws_len(&cs);
    let k = trim_start_ws_pos(&cs, e);
    string_of(slice_subrange_chars(&cs, k, e))
}

/// `&v[lo..hi]`.
pub fn slice_subrange_chars(v: &Vec<char>, lo: usize, hi: usize) -> (r: &[char])
    requires
        lo <= hi <= v@.len(),
    ensures
        r@ == v@.subrange(lo as int, hi as int),
{
    &v[lo..hi]
}

/// The pieces of `s` that `str::split_inclusive('\n')` yields: each piece ends
/// with a newline except possibly the last one.
pub open spec fn newline_pieces(s: Seq<char>) -> Seq<Seq<char>>
    decreases s.len(),
{
    if s.len() == 0 {
        Seq::empty()
    } else {
        let ps = newline_pieces(s.drop_last());
        let c = s.last();
        if ps.len() > 0 && ps.last().last() != '\n' {
            ps.update(ps.len() - 1, ps.last().push(c))
        } else {
            ps.push(seq![c])
        }
    }
}

/// One line of `str::lines`: the piece without its `\n` and, when a `\n` was
/// removed, without one `\r` before it.
pub open spec fn strip_line_end(p: Seq<char>) -> Seq<char> {
    if p.len() > 0 && p.last() == '\n' {
        let q = p.drop_last();
        if q.len() > 0 && q.last() == '\r' {
            q.drop_last()
        } else {
            q
        }
    } else {
        p
    }
}

/// `str::lines`.
pub open spec fn lines(s: Seq<char>) -> Seq<Seq<char>> {
    newline_pieces(s).map_values(|p: Seq<char>| strip_line_end(p))
}

/// `parts.join(sep)`.
pub fn join_strings(parts: &Vec<String>, sep: &str) -> (r: String)
    ensures
        r@ == join(parts.deep_view(), sep@),
{
    let ghost ps = parts.deep_view();
    let mut out = String::new();
    let mut i: usize = 0;
    while i < parts.len()
        invariant
            i <= parts@.len(),
            ps == parts.deep_view(),
            ps.len() == parts@.len(),
            out@ == join(ps.take(i as int), sep@),
        decreases parts@.len() - i,
    {
        proof {
            lemma_join_step(ps, sep@, i as int);
        }
        if i > 0 {
            out.append(sep);
        }
        out.append(parts[i].as_str());
        i = i + 1;
    }
    assert(ps.take(parts@.len() as int) =~= ps);
    out
}

/// `str::lines`, computed.
pub fn lines_of(s: &str) -> (r: Vec<String>)
    ensures
        r.deep_view() == lines(s@),
{
    let cs = chars_of(s);
    let mut pieces: Vec<Vec<char>> = Vec::new();
    let ghost mut pv: Seq<Seq<char>> = Seq::empty();
    let mut i: usize = 0;
    while i < cs.len()
        invariant
            cs@ == s@,
            i <= cs@.len(),
            pv == newline_pieces(cs@.take(i as int)),
            pv.len() == pieces@.len(),
            forall|k: int| 0 <= k < pieces@.len() ==> #[trigger] pieces@[k]@ == pv[k],
            forall|k: int| 0 <= k < pieces@.len() ==> #[trigger] pieces@[k]@.len() > 0,
        decreases cs@.len() - i,
    {
        let c = cs[i];
        let ghost old_pv = pv;
        assert(cs@.take(i + 1).drop_last() =~= cs@.take(i as int));
        let n = pieces.len();
        if n > 0 && pieces[n - 1][pieces[n - 1].len() - 1] != '\n' {
            let mut last = match pieces.pop() {
                Some(l) => l,
                None => {
                    assert(false);
                    Vec::new()
                },
            };
            last.push(c);
            pieces.push(last);
            proof {
                pv = old_pv.update(old_pv.len() - 1, old_pv.last().push(c));
            }
        } else {
            let mut np: Vec<char> = Vec::new();
            np.push(c);
            pieces.push(np);
            proof {
                pv = old_pv.push(seq![c]);
                assert(np@ =~= seq![c]);
            }
        }
        i = i + 1;
    }
    assert(cs@.take(cs@.len() as int) =~= cs@);
    let mut out: Vec<String> = Vec::new();
    let mut k: usize = 0;
    while k < pieces.len()
        invariant
            pv == newline_pieces(s@),
            pv.len() == pieces@.len(),
            forall|k: int| 0 <= k < pieces@.len() ==> #[trigger] pieces@[k]@ == pv[k],
            k <= pieces@.len(),
            out.deep_view() == lines(s@).take(k as int),
        decreases pieces@.len() - k,
    {
        let p = &pieces[k];
        let mut e = p.len();
        if e > 0 && p[e - 1] == '\n' {
            e = e - 1;
            if e > 0 && p[e - 1] == '\r' {
                e = e - 1;
            }
        }
        let line = string_of(&p.as_slice()[0..e]);
        assert(line@ =~= strip_line_end(pv[k as int]));
        let ghost before = out.deep_view();
        let ghost lv = line@;
        out.push(line);
        assert(out.deep_view() =~= before.push(lv));
        assert(lines(s@)[k as int] == strip_line_end(pv[k as int]));
        assert(lines(s@).take(k + 1) =~= lines(s@).take(k as int).push(lines(s@)[k as int]));
        assert(out.deep_view() =~= lines(s@).take(k + 1));
        k = k + 1;
    }
    assert(lines(s@).take(pieces@.len() as int) =~= lines(s@));
    out
}

/// The pieces of `s` between occurrences of `c` (`str::split(c)`).
pub open spec fn split_on(s: Seq<char>, c: char) -> Seq<Seq<char>>
    decreases s.len(),
{
    if s.len() == 0 {
        seq![Seq::empty()]
    } else {
        let ps = split_on(s.drop_last(), c);
        if s.last() == c {
            ps.push(Seq::empty())
        } else {
            ps.update(ps.len() - 1, ps.last().push(s.last()))
        }
    }
}

proof fn lemma_split_on_len(s: Seq<char>, c: char)
    ensures
        split_on(s, c).len() >= 1,
    decreases s.len(),
{
    if s.len() > 0 {
        lemma_split_on_len(s.drop_last(), c);
    }
}

/// `str::split(c)`, computed.
pub fn split_on_char(s: &str, c: char) -> (r: Vec<String>)
    ensures
        r.deep_view() == split_on(s@, c),
{
    let cs = chars_of(s);
    let mut done: Vec<String> = Vec::new();
    let mut cur: Vec<char> = Vec::new();
    let mut i: usize = 0;
    assert(cs@.take(0) =~= Seq::<char>::empty());
    assert(done.deep_view() =~= Seq::<Seq<char>>::empty());
    while i < cs.len()
        invariant
            cs@ == s@,
            i <= cs@.len(),
            split_on(cs@.take(i as int), c).len() >= 1,
            done.deep_view() == split_on(cs@.take(i as int), c).drop_last(),
            cur@ == split_on(cs@.take(i as int), c).last(),
        decreases cs@.len() - i,
    {
        let ghost ps = split_on(cs@.take(i as int), c);
        assert(cs@.take(i + 1).drop_last() =~= cs@.take(i as int));
        assert(cs@.take(i + 1).last() == cs@[i as int]);
        if cs[i] == c {
            let w = string_of(cur.as_slice());
            let ghost before = done.deep_view();
            let ghost wv = w@;
            done.push(w);
            cur = Vec::new();
            assert(done.deep_view() =~= before.push(wv));
            assert(ps.drop_last().push(ps.last()) =~= ps);
            assert(done.deep_view() =~= ps);
            assert(split_on(cs@.take(i + 1), c).drop_last() =~= ps);
            assert(cur@ =~= Seq::<char>::empty());
        } else {
            cur.push(cs[i]);
            assert(split_on(cs@.take(i + 1), c).drop_last() =~= ps.drop_last());
        }
        i = i + 1;
    }
    assert(cs@.take(cs@.len() as int) =~= cs@);
    let w = string_of(cur.as_slice());
    let ghost before = done.deep_view();
    let ghost wv = w@;
    done.push(w);
    proof {
        lemma_split_on_len(s@, c);
    }
    let ghost ps = split_on(s@, c);
    assert(done.deep_view() =~= before.push(wv));
    assert(ps.drop_last().push(ps.last()) =~= ps);
    assert(done.deep_view() =~= split_on(s@, c));
    done
}

} // verus!
