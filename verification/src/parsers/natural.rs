//! Natural ordering of entry names: runs of ASCII digits compare by their
//! numeric value (`slide2` < `slide10`), everything else character by character.

use vstd::prelude::*;
use crate::text::chars_of;

verus! {

broadcast use vstd::seq_lib::group_to_multiset_ensures;

/// The outcome of a three-way comparison.
#[derive(Debug, Clone, Copy, PartialEq, Eq, Structural)]
pub enum NaturalOrder {
    Less,
    Equal,
    Greater,
}

pub open spec fn is_digit(c: char) -> bool {
    '0' <= c && c <= '9'
}

/// The number of ASCII digits at the start of `s`.
pub open spec fn digit_run(s: Seq<char>) -> nat
    decreases s.len(),
{
    if s.len() > 0 && is_digit(s[0]) {
        1 + digit_run(s.drop_first())
    } else {
        0
    }
}

/// The value of a string of decimal digits.
pub open spec fn digits_value(s: Seq<char>) -> nat
    decreases s.len(),
{
    if s.len() == 0 {
        0
    } else {
        digits_value(s.drop_last()) * 10 + (s.last() as int - '0' as int) as nat
    }
}

/// A value saturated at `u64::MAX`.
pub open spec fn saturate(v: nat) -> nat {
    if v > u64::MAX { u64::MAX as nat } else { v }
}

/// The number written by the digit run at the start of `s`, saturated at `u64::MAX`.
pub open spec fn run_number(s: Seq<char>) -> nat {
    saturate(digits_value(s.take(digit_run(s) as int)))
}

pub open spec fn compare_nat(a: nat, b: nat) -> NaturalOrder {
    if a < b {
        NaturalOrder::Less
    } else if a == b {
        NaturalOrder::Equal
    } else {
        NaturalOrder::Greater
    }
}

pub open spec fn compare_char(a: char, b: char) -> NaturalOrder {
    if a < b {
        NaturalOrder::Less
    } else if a == b {
        NaturalOrder::Equal
    } else {
        NaturalOrder::Greater
    }
}

pub proof fn lemma_digit_run(s: Seq<char>)
    ensures
        digit_run(s) <= s.len(),
        s.len() > 0 && is_digit(s[0]) ==> digit_run(s) >= 1,
        forall|k: int| 0 <= k < digit_run(s) ==> is_digit(#[trigger] s[k]),
        digit_run(s) < s.len() ==> !is_digit(s[digit_run(s) as int]),
    decreases s.len(),
{
    if s.len() > 0 && is_digit(s[0]) {
        lemma_digit_run(s.drop_first());
        assert forall|k: int| 0 <= k < digit_run(s) implies is_digit(#[trigger] s[k]) by {
            if k > 0 {
                assert(s[k] == s.drop_first()[k - 1]);
            }
        }
        if digit_run(s) < s.len() {
            assert(s[digit_run(s) as int] == s.drop_first()[digit_run(s.drop_first()) as int]);
        }
    }
}

/// Natural order: at two digits compare the numbers their runs denote and go
/// on after the runs when they are equal; otherwise compare the characters.
pub open spec fn natural_order(a: Seq<char>, b: Seq<char>) -> NaturalOrder
    decreases a.len() + b.len(),
{
    if a.len() == 0 && b.len() == 0 {
        NaturalOrder::Equal
    } else if a.len() == 0 {
        NaturalOrder::Less
    } else if b.len() == 0 {
        NaturalOrder::Greater
    } else if is_digit(a[0]) && is_digit(b[0]) {
        proof {
            lemma_digit_run(a);
            lemma_digit_run(b);
        }
        let c = compare_nat(run_number(a), run_number(b));
        if c == NaturalOrder::Equal {
            natural_order(a.skip(digit_run(a) as int), b.skip(digit_run(b) as int))
        } else {
            c
        }
    } else if a[0] == b[0] {
        natural_order(a.drop_first(), b.drop_first())
    } else {
        compare_char(a[0], b[0])
    }
}

pub open spec fn flip(o: NaturalOrder) -> NaturalOrder {
    match o {
        NaturalOrder::Less => NaturalOrder::Greater,
        NaturalOrder::Equal => NaturalOrder::Equal,
        NaturalOrder::Greater => NaturalOrder::Less,
    }
}

/// Swapping the arguments flips the outcome.
pub proof fn law_natural_order_antisymmetric(a: Seq<char>, b: Seq<char>)
    ensures
        natural_order(b, a) == flip(natural_order(a, b)),
    decreases a.len() + b.len(),
{
    if a.len() > 0 && b.len() > 0 {
        if is_digit(a[0]) && is_digit(b[0]) {
            lemma_digit_run(a);
            lemma_digit_run(b);
            law_natural_order_antisymmetric(a.skip(digit_run(a) as int), b.skip(digit_run(b) as int));
        } else if a[0] == b[0] {
            law_natural_order_antisymmetric(a.drop_first(), b.drop_first());
        }
    }
}

/// Where a stable insertion puts `x` into `sorted`: before the first name it is less than.
pub open spec fn insert_position(sorted: Seq<Seq<char>>, x: Seq<char>) -> int
    decreases sorted.len(),
{
    if sorted.len() == 0 {
        0
    } else if natural_order(x, sorted[0]) == NaturalOrder::Less {
        0
    } else {
        1 + insert_position(sorted.drop_first(), x)
    }
}

/// The names sorted in natural order by stable insertion, one after the other.
pub open spec fn natural_sort(s: Seq<Seq<char>>) -> Seq<Seq<char>>
    decreases s.len(),
{
    if s.len() == 0 {
        Seq::empty()
    } else {
        let sorted = natural_sort(s.drop_last());
        sorted.insert(insert_position(sorted, s.last()), s.last())
    }
}

proof fn lemma_insert_position(sorted: Seq<Seq<char>>, x: Seq<char>, p: int)
    requires
        0 <= p <= sorted.len(),
        forall|m: int| 0 <= m < p ==> natural_order(x, #[trigger] sorted[m]) != NaturalOrder::Less,
        p == sorted.len() || natural_order(x, sorted[p]) == NaturalOrder::Less,
    ensures
        insert_position(sorted, x) == p,
    decreases sorted.len(),
{
    if p > 0 {
        assert(natural_order(x, sorted[0]) != NaturalOrder::Less);
        assert forall|m: int| 0 <= m < p - 1 implies natural_order(x, #[trigger] sorted.drop_first()[m]) != NaturalOrder::Less by {
            assert(sorted.drop_first()[m] == sorted[m + 1]);
        }
        if p < sorted.len() {
            assert(sorted.drop_first()[p - 1] == sorted[p]);
        }
        lemma_insert_position(sorted.drop_first(), x, p - 1);
    }
}

/// Each name is not greater than the next one.
pub open spec fn naturally_sorted(s: Seq<Seq<char>>) -> bool {
    forall|i: int, j: int|
        0 <= i && j == i + 1 && j < s.len() ==> natural_order(#[trigger] s[i], #[trigger] s[j]) != NaturalOrder::Greater
}

fn is_digit_char(c: char) -> (r: bool)
    ensures
        r == is_digit(c),
{
    '0' <= c && c <= '9'
}

fn digit_of(c: char) -> (d: u64)
    requires
        is_digit(c),
    ensures
        d == c as int - '0' as int,
{
    let n = c as u32;
    (n - 48) as u64
}

proof fn lemma_run_exact(s: Seq<char>, k: int)
    requires
        0 <= k <= s.len(),
        forall|m: int| 0 <= m < k ==> is_digit(#[trigger] s[m]),
        k == s.len() || !is_digit(s[k]),
    ensures
        digit_run(s) == k,
    decreases s.len(),
{
    if k > 0 {
        assert forall|m: int| 0 <= m < k - 1 implies is_digit(#[trigger] s.drop_first()[m]) by {
            assert(s.drop_first()[m] == s[m + 1]);
        }
        if k - 1 < s.drop_first().len() {
            assert(s.drop_first()[k - 1] == s[k]);
        }
        lemma_run_exact(s.drop_first(), k - 1);
    }
}

/// The number written by the digit run at `start` and the index just after it.
fn take_number(cs: &Vec<char>, start: usize) -> (r: (u64, usize))
    requires
        start <= cs@.len(),
    ensures
        r.1 == start + digit_run(cs@.skip(start as int)),
        r.0 == run_number(cs@.skip(start as int)),
{
    let mut n: u64 = 0;
    let mut k = start;
    while k < cs.len() && is_digit_char(cs[k])
        invariant
            start <= k <= cs@.len(),
            forall|m: int| start <= m < k ==> is_digit(#[trigger] cs@[m]),
            n == saturate(digits_value(cs@.subrange(start as int, k as int))),
        decreases cs@.len() - k,
    {
        let d = digit_of(cs[k]);
        let ghost old_v = digits_value(cs@.subrange(start as int, k as int));
        assert(cs@.subrange(start as int, k + 1).drop_last() =~= cs@.subrange(start as int, k as int));
        let ghost new_v = digits_value(cs@.subrange(start as int, k + 1));
        assert(new_v == old_v * 10 + d);
        n = match n.checked_mul(10) {
            None => u64::MAX,
            Some(m) => match m.checked_add(d) {
                None => u64::MAX,
                Some(x) => x,
            },
        };
        k = k + 1;
    }
    let ghost s = cs@.skip(start as int);
    proof {
        assert forall|m: int| 0 <= m < k - start implies is_digit(#[trigger] s[m]) by {
            assert(s[m] == cs@[start + m]);
        }
        if k < cs@.len() {
            assert(s[k - start] == cs@[k as int]);
        }
        lemma_run_exact(s, k - start);
        assert(s.take(k - start) =~= cs@.subrange(start as int, k as int));
    }
    (n, k)
}

/// Natural comparison of two names.
pub fn natural_compare(a: &str, b: &str) -> (r: NaturalOrder)
    ensures
        r == natural_order(a@, b@),
{
    let ca = chars_of(a);
    let cb = chars_of(b);
    let mut i: usize = 0;
    let mut j: usize = 0;
    assert(ca@.skip(0) =~= ca@);
    assert(cb@.skip(0) =~= cb@);
    loop
        invariant
            i <= ca@.len(),
            j <= cb@.len(),
            natural_order(a@, b@) == natural_order(ca@.skip(i as int), cb@.skip(j as int)),
        decreases ca@.len() - i + cb@.len() - j,
    {
        let ghost sa = ca@.skip(i as int);
        let ghost sb = cb@.skip(j as int);
        if i == ca.len() && j == cb.len() {
            return NaturalOrder::Equal;
        } else if i == ca.len() {
            return NaturalOrder::Less;
        } else if j == cb.len() {
            return NaturalOrder::Greater;
        }
        assert(sa[0] == ca@[i as int]);
        assert(sb[0] == cb@[j as int]);
        if is_digit_char(ca[i]) && is_digit_char(cb[j]) {
            let (na, ei) = take_number(&ca, i);
            let (nb, ej) = take_number(&cb, j);
            proof {
                lemma_digit_run(sa);
                lemma_digit_run(sb);
            }
            if na < nb {
                return NaturalOrder::Less;
            } else if na > nb {
                return NaturalOrder::Greater;
            }
            assert(sa.skip(digit_run(sa) as int) =~= ca@.skip(ei as int));
            assert(sb.skip(digit_run(sb) as int) =~= cb@.skip(ej as int));
            i = ei;
            j = ej;
        } else if ca[i] == cb[j] {
            assert(sa.drop_first() =~= ca@.skip(i + 1));
            assert(sb.drop_first() =~= cb@.skip(j + 1));
            i = i + 1;
            j = j + 1;
        } else if ca[i] < cb[j] {
            return NaturalOrder::Less;
        } else {
            return NaturalOrder::Greater;
        }
    }
}

/// The names in natural order (a stable insertion sort).
pub fn sort_natural(v: Vec<String>) -> (r: Vec<String>)
    ensures
        r@.map_values(|s: String| s@) == natural_sort(v@.map_values(|s: String| s@)),
        r@.map_values(|s: String| s@).to_multiset() == v@.map_values(|s: String| s@).to_multiset(),
        naturally_sorted(r@.map_values(|s: String| s@)),
{
    let mut out: Vec<String> = Vec::new();
    let mut k: usize = 0;
    let ghost vv = v@.map_values(|s: String| s@);
    while k < v.len()
        invariant
            k <= v@.len(),
            vv == v@.map_values(|s: String| s@),
            out@.map_values(|s: String| s@).to_multiset() == vv.take(k as int).to_multiset(),
            out@.map_values(|s: String| s@) == natural_sort(vv.take(k as int)),
            naturally_sorted(out@.map_values(|s: String| s@)),
        decreases v@.len() - k,
    {
        let x = v[k].clone();
        let ghost ov = out@.map_values(|s: String| s@);
        let mut p: usize = 0;
        while p < out.len() && natural_compare(x.as_str(), out[p].as_str()) != NaturalOrder::Less
            invariant
                p <= out@.len(),
                ov == out@.map_values(|s: String| s@),
                forall|m: int| 0 <= m < p ==> natural_order(x@, #[trigger] ov[m]) != NaturalOrder::Less,
            decreases out@.len() - p,
        {
            p = p + 1;
        }
        proof {
            if p > 0 {
                law_natural_order_antisymmetric(x@, ov[p - 1]);
            }
            lemma_insert_position(ov, x@, p as int);
        }
        out.insert(p, x);
        let ghost nv = out@.map_values(|s: String| s@);
        proof {
            assert(nv =~= ov.insert(p as int, x@));
            assert(nv.remove(p as int) =~= ov);
            assert(nv[p as int] == x@);
            assert(vv.take(k + 1) =~= vv.take(k as int).push(vv[k as int]));
            assert(vv[k as int] == x@);
            assert(vv.take(k + 1).drop_last() =~= vv.take(k as int));
            assert forall|i: int, j: int|
                0 <= i && j == i + 1 && j < nv.len() implies natural_order(
                #[trigger] nv[i],
                #[trigger] nv[j],
            ) != NaturalOrder::Greater by {
                if j < p {
                    assert(nv[i] == ov[i] && nv[j] == ov[j]);
                } else if j == p {
                    assert(nv[i] == ov[p - 1]);
                } else if i == p {
                    assert(nv[j] == ov[p as int]);
                } else {
                    assert(nv[i] == ov[i - 1] && nv[j] == ov[j - 1]);
                }
            }
        }
        k = k + 1;
    }
    assert(vv.take(v@.len() as int) =~= vv);
    out
}

} // verus!
