//! Byte-string helpers shared by the line parsers: ASCII trimming, splitting
//! on a separator byte and searching for a byte.

use vstd::prelude::*;

verus! {

/// The bytes that `u8::is_ascii_whitespace` accepts.
pub open spec fn is_ascii_ws(b: u8) -> bool {
    b == 0x20 || b == 0x09 || b == 0x0a || b == 0x0c || b == 0x0d
}

/// `s` without its leading ASCII whitespace.
pub open spec fn trim_start_spec(s: Seq<u8>) -> Seq<u8>
    decreases s.len(),
{
    if s.len() > 0 && is_ascii_ws(s[0]) {
        trim_start_spec(s.drop_first())
    } else {
        s
    }
}

/// `s` without its trailing ASCII whitespace.
pub open spec fn trim_end_spec(s: Seq<u8>) -> Seq<u8>
    decreases s.len(),
{
    if s.len() > 0 && is_ascii_ws(s.last()) {
        trim_end_spec(s.drop_last())
    } else {
        s
    }
}

/// `s` without leading and trailing ASCII whitespace (`<[u8]>::trim_ascii`).
pub open spec fn trim_spec(s: Seq<u8>) -> Seq<u8> {
    trim_end_spec(trim_start_spec(s))
}

/// Index of the first `b` in `s`, or `s.len()` when `s` holds no `b`.
pub open spec fn position_spec(s: Seq<u8>, b: u8) -> nat
    decreases s.len(),
{
    if s.len() == 0 {
        0
    } else if s[0] == b {
        0
    } else {
        1 + position_spec(s.drop_first(), b)
    }
}

/// The pieces of `s` between the occurrences of `sep`, as `<[u8]>::split`
/// yields them: one more piece than there are separators, empty pieces kept.
pub open spec fn split_spec(s: Seq<u8>, sep: u8) -> Seq<Seq<u8>>
    decreases s.len(),
{
    if s.len() == 0 {
        seq![Seq::<u8>::empty()]
    } else {
        let p = split_spec(s.drop_last(), sep);
        if s.last() == sep {
            p.push(Seq::<u8>::empty())
        } else {
            p.update(p.len() - 1, p.last().push(s.last()))
        }
    }
}

/// Whether `s` ends with `suffix`.
pub open spec fn ends_with_spec(s: Seq<u8>, suffix: Seq<u8>) -> bool {
    suffix.len() <= s.len() && s.subrange(s.len() - suffix.len(), s.len() as int) == suffix
}

/// Splitting always gives at least one piece.
pub proof fn lemma_split_nonempty(s: Seq<u8>, sep: u8)
    ensures
        split_spec(s, sep).len() >= 1,
    decreases s.len(),
{
    if s.len() > 0 {
        lemma_split_nonempty(s.drop_last(), sep);
    }
}

/// Whether `b` is ASCII whitespace.
pub fn is_ascii_whitespace(b: u8) -> (r: bool)
    ensures
        r == is_ascii_ws(b),
{
    b == 0x20 || b == 0x09 || b == 0x0a || b == 0x0c || b == 0x0d
}

proof fn lemma_trim_start_step(s: Seq<u8>, a: int, hi: int)
    requires
        0 <= a < hi <= s.len(),
        is_ascii_ws(s[a]),
    ensures
        trim_start_spec(s.subrange(a, hi)) == trim_start_spec(s.subrange(a + 1, hi)),
{
    assert(s.subrange(a, hi).drop_first() =~= s.subrange(a + 1, hi));
}

proof fn lemma_trim_end_step(s: Seq<u8>, lo: int, b: int)
    requires
        0 <= lo < b <= s.len(),
        is_ascii_ws(s[b - 1]),
    ensures
        trim_end_spec(s.subrange(lo, b)) == trim_end_spec(s.subrange(lo, b - 1)),
{
    assert(s.subrange(lo, b).drop_last() =~= s.subrange(lo, b - 1));
}

/// The bounds of `s[lo..hi].trim_ascii()` inside `s`.
pub fn trim_range(s: &[u8], lo: usize, hi: usize) -> (r: (usize, usize))
    requires
        lo <= hi <= s@.len(),
    ensures
        lo <= r.0 <= r.1 <= hi,
        s@.subrange(r.0 as int, r.1 as int) == trim_spec(s@.subrange(lo as int, hi as int)),
{
    let mut a = lo;
    while a < hi && is_ascii_whitespace(s[a])
        invariant
            lo <= a <= hi <= s@.len(),
            trim_start_spec(s@.subrange(lo as int, hi as int)) == trim_start_spec(
                s@.subrange(a as int, hi as int),
            ),
        decreases hi - a,
    {
        proof {
            lemma_trim_start_step(s@, a as int, hi as int);
        }
        a = a + 1;
    }
    assert(trim_start_spec(s@.subrange(a as int, hi as int)) == s@.subrange(a as int, hi as int));
    let mut b = hi;
    while b > a && is_ascii_whitespace(s[b - 1])
        invariant
            lo <= a <= b <= hi <= s@.len(),
            trim_spec(s@.subrange(lo as int, hi as int)) == trim_end_spec(
                s@.subrange(a as int, b as int),
            ),
        decreases b - a,
    {
        proof {
            lemma_trim_end_step(s@, a as int, b as int);
        }
        b = b - 1;
    }
    (a, b)
}

/// The pieces of `s` that the ranges in `r` delimit.
pub open spec fn ranges_view(s: Seq<u8>, r: Seq<(usize, usize)>) -> Seq<Seq<u8>> {
    r.map_values(|p: (usize, usize)| s.subrange(p.0 as int, p.1 as int))
}

/// The first `b` in `s` is at `i` when `s[i]` is `b` and no `b` comes
/// before it; when `s` holds none, the position is its length.
pub proof fn lemma_position_at(s: Seq<u8>, b: u8, i: int)
    requires
        0 <= i <= s.len(),
        forall|k: int| 0 <= k < i ==> s[k] != b,
        i == s.len() || s[i] == b,
    ensures
        position_spec(s, b) == i,
    decreases i,
{
    if i > 0 {
        lemma_position_at(s.drop_first(), b, i - 1);
    }
}

/// Index of the first `b` in `s[lo..hi]`, counted from the start of `s`;
/// `hi` when that range holds no `b`.
pub fn find_byte(s: &[u8], lo: usize, hi: usize, b: u8) -> (r: usize)
    requires
        lo <= hi <= s@.len(),
    ensures
        lo <= r <= hi,
        r == lo + position_spec(s@.subrange(lo as int, hi as int), b),
        r < hi ==> s@[r as int] == b,
        forall|k: int| lo <= k < r ==> s@[k] != b,
{
    let mut i = lo;
    while i < hi && s[i] != b
        invariant
            lo <= i <= hi <= s@.len(),
            forall|k: int| lo <= k < i ==> s@[k] != b,
        decreases hi - i,
    {
        i = i + 1;
    }
    proof {
        lemma_position_at(s@.subrange(lo as int, hi as int), b, i - lo);
    }
    i
}

/// The ranges of the pieces of `s[lo..hi]` between the occurrences of `sep`.
pub fn split_ranges(s: &[u8], lo: usize, hi: usize, sep: u8) -> (r: Vec<(usize, usize)>)
    requires
        lo <= hi <= s@.len(),
    ensures
        ranges_view(s@, r@) == split_spec(s@.subrange(lo as int, hi as int), sep),
        forall|k: int| 0 <= k < r@.len() ==> lo <= #[trigger] r@[k].0 <= r@[k].1 <= hi,
{
    let mut out: Vec<(usize, usize)> = Vec::new();
    let mut start = lo;
    let mut i = lo;
    assert(s@.subrange(lo as int, lo as int) =~= Seq::<u8>::empty());
    assert(ranges_view(s@, out@).push(s@.subrange(start as int, i as int)) =~= seq![
        Seq::<u8>::empty(),
    ]);
    while i < hi
        invariant
            lo <= start <= i <= hi <= s@.len(),
            split_spec(s@.subrange(lo as int, i as int), sep) == ranges_view(s@, out@).push(
                s@.subrange(start as int, i as int),
            ),
            forall|k: int| 0 <= k < out@.len() ==> lo <= #[trigger] out@[k].0 <= out@[k].1 <= start,
        decreases hi - i,
    {
        let ghost prev = s@.subrange(lo as int, i as int);
        assert(s@.subrange(lo as int, i + 1).drop_last() =~= prev);
        if s[i] == sep {
            let ghost old_out = out@;
            out.push((start, i));
            assert(ranges_view(s@, out@) =~= ranges_view(s@, old_out).push(
                s@.subrange(start as int, i as int),
            ));
            start = i + 1;
            assert(s@.subrange(start as int, start as int) =~= Seq::<u8>::empty());
        } else {
            assert(s@.subrange(start as int, i + 1) =~= s@.subrange(start as int, i as int).push(
                s@[i as int],
            ));
        }
        i = i + 1;
        assert(split_spec(s@.subrange(lo as int, i as int), sep) =~= ranges_view(s@, out@).push(
            s@.subrange(start as int, i as int),
        ));
    }
    out.push((start, hi));
    assert(ranges_view(s@, out@) =~= split_spec(s@.subrange(lo as int, hi as int), sep));
    out
}

/// A copy of `s[lo..hi]`.
pub fn copy_range(s: &[u8], lo: usize, hi: usize) -> (r: Vec<u8>)
    requires
        lo <= hi <= s@.len(),
    ensures
        r@ == s@.subrange(lo as int, hi as int),
{
    let mut out: Vec<u8> = Vec::new();
    let mut i = lo;
    while i < hi
        invariant
            lo <= i <= hi <= s@.len(),
            out@ == s@.subrange(lo as int, i as int),
        decreases hi - i,
    {
        out.push(s[i]);
        assert(s@.subrange(lo as int, i + 1) =~= s@.subrange(lo as int, i as int).push(s@[i as int]));
        i = i + 1;
    }
    out
}

/// Splitting at a separator placed between two byte strings gives the
/// pieces of each, one after the other.
pub proof fn lemma_split_concat(a: Seq<u8>, b: Seq<u8>, sep: u8)
    ensures
        split_spec(a + seq![sep] + b, sep) == split_spec(a, sep) + split_spec(b, sep),
    decreases b.len(),
{
    let c = a + seq![sep] + b;
    if b.len() == 0 {
        assert(c =~= a.push(sep));
        assert(c.drop_last() =~= a);
        assert(split_spec(c, sep) =~= split_spec(a, sep) + split_spec(b, sep));
    } else {
        lemma_split_concat(a, b.drop_last(), sep);
        lemma_split_nonempty(b.drop_last(), sep);
        assert(c.drop_last() =~= a + seq![sep] + b.drop_last());
        assert(c.last() == b.last());
        assert(split_spec(c, sep) =~= split_spec(a, sep) + split_spec(b, sep));
    }
}

/// Whether every byte of `s` is ASCII whitespace.
pub open spec fn all_ascii_ws(s: Seq<u8>) -> bool {
    forall|k: int| 0 <= k < s.len() ==> is_ascii_ws(#[trigger] s[k])
}

proof fn lemma_trim_start_ws_prefix(w: Seq<u8>, m: Seq<u8>)
    requires
        all_ascii_ws(w),
        m.len() > 0,
        !is_ascii_ws(m[0]),
    ensures
        trim_start_spec(w + m) == m,
    decreases w.len(),
{
    if w.len() == 0 {
        assert(w + m =~= m);
    } else {
        assert((w + m).drop_first() =~= w.drop_first() + m);
        assert((w + m)[0] == w[0]);
        lemma_trim_start_ws_prefix(w.drop_first(), m);
    }
}

proof fn lemma_trim_end_ws_suffix(m: Seq<u8>, w: Seq<u8>)
    requires
        all_ascii_ws(w),
        m.len() > 0,
        !is_ascii_ws(m.last()),
    ensures
        trim_end_spec(m + w) == m,
    decreases w.len(),
{
    if w.len() == 0 {
        assert(m + w =~= m);
    } else {
        assert((m + w).drop_last() =~= m + w.drop_last());
        assert((m + w).last() == w.last());
        lemma_trim_end_ws_suffix(m, w.drop_last());
    }
}

/// Trimming removes exactly the whitespace around a text that neither starts
/// nor ends with whitespace.
pub proof fn lemma_trim_surrounding(w1: Seq<u8>, m: Seq<u8>, w2: Seq<u8>)
    requires
        all_ascii_ws(w1),
        all_ascii_ws(w2),
        m.len() > 0,
        !is_ascii_ws(m[0]),
        !is_ascii_ws(m.last()),
    ensures
        trim_spec(w1 + m + w2) == m,
{
    assert(w1 + m + w2 =~= w1 + (m + w2));
    assert((m + w2)[0] == m[0]);
    lemma_trim_start_ws_prefix(w1, m + w2);
    lemma_trim_end_ws_suffix(m, w2);
}

/// Text without the separator is one piece.
pub proof fn lemma_split_no_sep(s: Seq<u8>, sep: u8)
    requires
        !s.contains(sep),
    ensures
        split_spec(s, sep) == seq![s],
    decreases s.len(),
{
    if s.len() == 0 {
        assert(s =~= Seq::<u8>::empty());
        assert(split_spec(s, sep) =~= seq![s]);
    } else {
        let t = s.drop_last();
        assert(!t.contains(sep)) by {
            if t.contains(sep) {
                let k = choose|k: int| 0 <= k < t.len() && t[k] == sep;
                assert(s[k] == sep);
            }
        }
        lemma_split_no_sep(t, sep);
        assert(s[s.len() - 1] != sep);
        assert(t.push(s.last()) =~= s);
        let p = split_spec(t, sep);
        assert(p == seq![t]);
        assert(s.last() != sep);
        assert(split_spec(s, sep) == p.update(p.len() - 1, p.last().push(s.last())));
        assert(p.update(p.len() - 1, p.last().push(s.last())) =~= seq![s]);
    }
}

} // verus!
