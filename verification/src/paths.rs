//! File names, stems and extensions of `'/'`-separated paths, by the rules
//! `std::path::Path` applies on Unix: trailing `'/'` and `.` components are
//! not part of the file name, and the extension follows the file name's last
//! dot unless that dot starts the name.

use vstd::prelude::*;
use vstd::string::*;
use crate::text::{last_segment_start, last_segment_start_of, lemma_last_segment_start_bounds};

verus! {

/// Where the last component of a path ends: trailing `'/'` and `/.` are not
/// part of it.
pub open spec fn component_end(s: Seq<char>) -> nat
    decreases s.len(),
{
    if s.len() == 0 {
        0
    } else if s.last() == '/' {
        component_end(s.drop_last())
    } else if s.len() >= 2 && s.last() == '.' && s[s.len() - 2] == '/' {
        component_end(s.drop_last())
    } else {
        s.len()
    }
}

/// Where the last component of a path starts.
pub open spec fn file_name_start(s: Seq<char>) -> nat {
    last_segment_start(s.subrange(0, component_end(s) as int))
}

/// The last component of a path.
pub open spec fn file_name(s: Seq<char>) -> Seq<char> {
    s.subrange(file_name_start(s) as int, component_end(s) as int)
}

pub open spec fn parent_dir_name() -> Seq<char> {
    seq!['.', '.']
}

/// The index of the last `'.'` of `f`.
pub open spec fn last_dot(f: Seq<char>) -> Option<nat>
    decreases f.len(),
{
    if f.len() == 0 {
        None
    } else if f.last() == '.' {
        Some((f.len() - 1) as nat)
    } else {
        last_dot(f.drop_last())
    }
}

/// Where the stem of the path's file name ends: at its last dot, when that
/// dot does not start the name (then the name has an extension); otherwise
/// at the end of the name.
pub open spec fn stem_end(s: Seq<char>) -> nat {
    let d = last_dot(file_name(s));
    if d is Some && d->0 > 0 {
        file_name_start(s) + d->0
    } else {
        component_end(s)
    }
}

/// The length of the path's extension: the part of its file name after the
/// last dot, when that dot does not start the name; `None` when there is no
/// extension or no file name (a last component `..`).
pub open spec fn extension_len(s: Seq<char>) -> Option<nat> {
    let f = file_name(s);
    let d = last_dot(f);
    if f != parent_dir_name() && d is Some && d->0 > 0 {
        Some((f.len() - d->0 - 1) as nat)
    } else {
        None
    }
}

/// `Path::set_extension`: the path cut right after the stem of its file name,
/// then `.` and the extension unless that is empty; a path whose last
/// component is `..` has no file name and stays as it is.
pub open spec fn set_extension(s: Seq<char>, ext: Seq<char>) -> Seq<char> {
    if file_name(s) == parent_dir_name() {
        s
    } else {
        s.subrange(0, stem_end(s) as int) + if ext.len() == 0 { Seq::empty() } else { seq!['.'] + ext }
    }
}

/// `Path::with_extension`: the path's bytes without those of its extension
/// (counted from the end of the whole path), then `set_extension`.
pub open spec fn with_extension(s: Seq<char>, ext: Seq<char>) -> Seq<char> {
    let base = match extension_len(s) {
        Some(n) => s.subrange(0, s.len() - n),
        None => s,
    };
    set_extension(base, ext)
}

/// `component_end` lies within the path, ends on a character that is not
/// `'/'`, and is its own component end.
pub proof fn lemma_component_end(s: Seq<char>)
    ensures
        component_end(s) <= s.len(),
        component_end(s) > 0 ==> s[component_end(s) - 1] != '/',
        forall|k: int| component_end(s) <= k <= s.len() ==> component_end(#[trigger] s.subrange(0, k)) == component_end(s),
    decreases s.len(),
{
    if s.len() > 0 {
        let p = s.drop_last();
        if s.last() == '/' || (s.len() >= 2 && s.last() == '.' && s[s.len() - 2] == '/') {
            lemma_component_end(p);
            assert forall|k: int| component_end(s) <= k <= s.len() implies component_end(#[trigger] s.subrange(0, k)) == component_end(s) by {
                if k == s.len() {
                    assert(s.subrange(0, k) =~= s);
                } else {
                    assert(s.subrange(0, k) =~= p.subrange(0, k));
                }
            }
            assert(forall|i: int| 0 <= i < p.len() ==> p[i] == s[i]);
        } else {
            assert(s.subrange(0, s.len() as int) =~= s);
        }
    }
}

/// `last_dot` points at a dot of `f`, after which there is none.
pub proof fn lemma_last_dot(f: Seq<char>)
    ensures
        last_dot(f) matches Some(k) ==> k < f.len() && f[k as int] == '.',
        forall|i: int| #![trigger f[i]] (match last_dot(f) { Some(k) => k < i, None => 0 <= i }) && i < f.len() ==> f[i] != '.',
    decreases f.len(),
{
    if f.len() > 0 && f.last() != '.' {
        let p = f.drop_last();
        lemma_last_dot(p);
        assert(forall|i: int| 0 <= i < p.len() ==> p[i] == f[i]);
    }
}

/// Finds where the last component of `s` ends.
pub fn component_end_of(s: &str) -> (r: usize)
    ensures
        r == component_end(s@),
{
    let n = s.unicode_len();
    let mut end: usize = n;
    assert(s@.subrange(0, n as int) =~= s@);
    loop
        invariant
            end <= n,
            n == s@.len(),
            component_end(s@) == component_end(s@.subrange(0, end as int)),
        ensures
            component_end(s@) == end,
        decreases end,
    {
        let ghost t = s@.subrange(0, end as int);
        if end == 0 {
            break;
        }
        assert(t.drop_last() =~= s@.subrange(0, end - 1));
        let c = s.get_char(end - 1);
        if c == '/' {
            end = end - 1;
        } else if c == '.' && end >= 2 && s.get_char(end - 2) == '/' {
            end = end - 1;
        } else {
            break;
        }
    }
    end
}

/// Finds the last dot of `s` among the positions `start..end`.
pub fn last_dot_in(s: &str, start: usize, end: usize) -> (r: Option<usize>)
    requires
        start <= end <= s@.len(),
    ensures
        match r {
            Some(j) => start <= j < end && last_dot(s@.subrange(start as int, end as int)) == Some((j - start) as nat),
            None => last_dot(s@.subrange(start as int, end as int)) is None,
        },
{
    let mut j: usize = end;
    assert(s@.subrange(start as int, end as int).subrange(0, (end - start) as int) =~= s@.subrange(start as int, end as int));
    while j > start
        invariant
            start <= j <= end <= s@.len(),
            last_dot(s@.subrange(start as int, end as int)) == last_dot(s@.subrange(start as int, j as int)),
        decreases j,
    {
        let ghost t = s@.subrange(start as int, j as int);
        assert(t.drop_last() =~= s@.subrange(start as int, j - 1));
        if s.get_char(j - 1) == '.' {
            return Some(j - 1);
        }
        j = j - 1;
    }
    None
}

/// The positions of the file name of `s`: where it starts and ends, and where
/// its stem ends.
pub fn file_name_bounds(s: &str) -> (r: (usize, usize, usize))
    ensures
        r.0 == file_name_start(s@),
        r.1 == component_end(s@),
        r.2 == stem_end(s@),
        r.0 <= r.2 <= r.1 <= s@.len(),
{
    let end = component_end_of(s);
    proof { lemma_component_end(s@); }
    let head = s.substring_char(0, end);
    let start = last_segment_start_of(head);
    proof {
        lemma_last_segment_start_bounds(s@.subrange(0, end as int));
        assert(s@.subrange(start as int, end as int) =~= file_name(s@));
    }
    let stem = match last_dot_in(s, start, end) {
        Some(j) => if j > start { j } else { end },
        None => end,
    };
    (start, end, stem)
}

/// The extension length of `s` (see `extension_len`).
pub fn extension_len_of(s: &str) -> (r: Option<usize>)
    ensures
        match r {
            Some(n) => extension_len(s@) == Some(n as nat) && n <= s@.len(),
            None => extension_len(s@) is None,
        },
{
    let (start, end, stem) = file_name_bounds(s);
    if is_parent_dir_name(s, start, end) {
        return None;
    }
    proof {
        lemma_last_dot(file_name(s@));
    }
    if stem < end {
        // the stem stops at a dot that does not start the name
        assert(file_name(s@).len() == end - start);
        Some(end - stem - 1)
    } else {
        None
    }
}

/// `Path::set_extension` on a path given as text (see `set_extension`).
pub fn set_extension_of(s: &str, ext: &str) -> (r: String)
    ensures
        r@ == set_extension(s@, ext@),
{
    let (start, end, stem) = file_name_bounds(s);
    if is_parent_dir_name(s, start, end) {
        return String::from_str(s);
    }
    let head = String::from_str(s.substring_char(0, stem));
    if ext.unicode_len() == 0 {
        assert(head@ =~= set_extension(s@, ext@));
        head
    } else {
        proof { reveal_strlit("."); }
        let r = head.concat(".").concat(ext);
        assert(r@ =~= set_extension(s@, ext@));
        r
    }
}

/// `Path::with_extension` on a path given as text (see `with_extension`).
pub fn with_extension_of(s: &str, ext: &str) -> (r: String)
    ensures
        r@ == with_extension(s@, ext@),
{
    match extension_len_of(s) {
        Some(n) => {
            let len = s.unicode_len();
            let base = s.substring_char(0, len - n);
            set_extension_of(base, ext)
        },
        None => set_extension_of(s, ext),
    }
}

/// Whether the last component of `s` is `..` (then `s` has no file name).
pub fn is_parent_dir_name(s: &str, start: usize, end: usize) -> (r: bool)
    requires
        start <= end <= s@.len(),
    ensures
        r == (s@.subrange(start as int, end as int) == parent_dir_name()),
{
    if end - start != 2 {
        assert(s@.subrange(start as int, end as int).len() != parent_dir_name().len());
        return false;
    }
    let r = s.get_char(start) == '.' && s.get_char(start + 1) == '.';
    if r {
        assert(s@.subrange(start as int, end as int) =~= parent_dir_name());
    } else {
        assert(s@.subrange(start as int, end as int)[0] != '.' || s@.subrange(start as int, end as int)[1] != '.');
    }
    r
}

} // verus!
