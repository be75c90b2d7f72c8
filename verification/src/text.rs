//! Character-level string helpers shared by the naming rules.

use vstd::prelude::*;
use vstd::string::*;

verus! {

/// `s` ends with `suffix`.
pub open spec fn has_suffix(s: Seq<char>, suffix: Seq<char>) -> bool {
    suffix.len() <= s.len() && s.subrange(s.len() - suffix.len(), s.len() as int) == suffix
}

/// The number of occurrences of `c` in `s`.
pub open spec fn count_char(s: Seq<char>, c: char) -> nat
    decreases s.len(),
{
    if s.len() == 0 {
        0
    } else {
        count_char(s.drop_last(), c) + if s.last() == c { 1nat } else { 0nat }
    }
}

/// Index just past the last `'/'` in `s`, or 0 when there is none: where the
/// final path segment starts.
pub open spec fn last_segment_start(s: Seq<char>) -> nat
    decreases s.len(),
{
    if s.len() == 0 {
        0
    } else if s.last() == '/' {
        s.len()
    } else {
        last_segment_start(s.drop_last())
    }
}

/// The text after the last `'/'` of `s` (all of `s` when it holds none).
pub open spec fn last_segment(s: Seq<char>) -> Seq<char> {
    s.subrange(last_segment_start(s) as int, s.len() as int)
}

/// Whether `s` ends with `suffix` (the `str::ends_with` test on whole characters).
pub fn str_ends_with(s: &str, suffix: &str) -> (r: bool)
    ensures
        r == has_suffix(s@, suffix@),
{
    let n = s.unicode_len();
    let m = suffix.unicode_len();
    if m > n {
        return false;
    }
    let off = n - m;
    let mut i: usize = 0;
    while i < m
        invariant
            n == s@.len(),
            m == suffix@.len(),
            off == n - m,
            i <= m,
            forall|k: int| 0 <= k < i ==> s@[off + k] == suffix@[k],
        decreases m - i,
    {
        if s.get_char(off + i) != suffix.get_char(i) {
            assert(s@.subrange(off as int, n as int)[i as int] != suffix@[i as int]);
            return false;
        }
        i = i + 1;
    }
    assert(s@.subrange(off as int, n as int) =~= suffix@);
    true
}

/// Counts the occurrences of `c` in `s`.
pub fn count_char_in(s: &str, c: char) -> (r: usize)
    ensures
        r == count_char(s@, c),
{
    let n = s.unicode_len();
    let mut i: usize = 0;
    let mut cnt: usize = 0;
    while i < n
        invariant
            n == s@.len(),
            i <= n,
            cnt == count_char(s@.subrange(0, i as int), c),
            cnt <= i,
        decreases n - i,
    {
        let ch = s.get_char(i);
        assert(s@.subrange(0, i + 1).drop_last() =~= s@.subrange(0, i as int));
        if ch == c {
            cnt = cnt + 1;
        }
        i = i + 1;
    }
    assert(s@.subrange(0, n as int) =~= s@);
    cnt
}

/// Finds where the final `'/'`-separated segment of `s` starts.
pub fn last_segment_start_of(s: &str) -> (r: usize)
    ensures
        r == last_segment_start(s@),
        r <= s@.len(),
{
    let n = s.unicode_len();
    let mut i: usize = n;
    assert(s@.subrange(0, n as int) =~= s@);
    while i > 0
        invariant
            n == s@.len(),
            i <= n,
            forall|k: int| i <= k < n ==> s@[k] != '/',
            last_segment_start(s@) == last_segment_start(s@.subrange(0, i as int)),
        decreases i,
    {
        let ghost pre = s@.subrange(0, i as int);
        assert(pre.drop_last() =~= s@.subrange(0, i - 1));
        if s.get_char(i - 1) == '/' {
            return i;
        }
        i = i - 1;
    }
    assert(s@.subrange(0, 0) =~= Seq::<char>::empty());
    0
}


/// `last_segment_start` lies within the string, and no `'/'` follows it.
pub proof fn lemma_last_segment_start_bounds(s: Seq<char>)
    ensures
        last_segment_start(s) <= s.len(),
        forall|k: int| last_segment_start(s) <= k < s.len() ==> s[k] != '/',
        last_segment_start(s) > 0 ==> s[last_segment_start(s) - 1] == '/',
    decreases s.len(),
{
    if s.len() > 0 && s.last() != '/' {
        lemma_last_segment_start_bounds(s.drop_last());
        assert(forall|k: int| 0 <= k < s.len() - 1 ==> s.drop_last()[k] == s[k]);
    }
}

/// Cutting a string anywhere inside its final segment keeps where that
/// segment starts.
pub proof fn lemma_last_segment_start_prefix(s: Seq<char>, k: int)
    requires
        last_segment_start(s) <= k <= s.len(),
    ensures
        last_segment_start(s.subrange(0, k)) == last_segment_start(s),
    decreases s.len() - k,
{
    if k < s.len() {
        lemma_last_segment_start_bounds(s);
        assert(s.last() != '/');
        assert(s.drop_last() =~= s.subrange(0, s.len() - 1));
        lemma_last_segment_start_prefix(s.drop_last(), k);
        assert(s.drop_last().subrange(0, k) =~= s.subrange(0, k));
    } else {
        assert(s.subrange(0, k) =~= s);
    }
}

/// Appending text without `'/'` keeps where the final segment starts.
pub proof fn lemma_last_segment_start_append(a: Seq<char>, b: Seq<char>)
    requires
        forall|i: int| 0 <= i < b.len() ==> b[i] != '/',
    ensures
        last_segment_start(a + b) == last_segment_start(a),
    decreases b.len(),
{
    if b.len() > 0 {
        let ab = a + b;
        assert(ab.last() == b.last());
        assert(ab.drop_last() =~= a + b.drop_last());
        lemma_last_segment_start_append(a, b.drop_last());
    } else {
        assert(a + b =~= a);
    }
}

} // verus!
