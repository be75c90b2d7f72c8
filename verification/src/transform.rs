//! The per-image transformations applied to an extracted archive: which
//! files are processed, how converted, shrunk and split images are named,
//! how an image is shrunk and split, and how the pages are renumbered.

use vstd::prelude::*;
use vstd::string::*;
use crate::decimal::{
    decimal_value, is_digit, lemma_padded_decimal_injective, lemma_padded_decimal_value, pow10, lemma_padded_decimal_shape, lemma_three_digit_order,
    lex_less, padded_decimal, padded_decimal_string,
};

verus! {

/// The images of an extracted archive are shrunk until they hold at most
/// this many pixels.
pub const MAX_PIXELS: u32 = 500_000;

/// Width of the page numbers given by the renaming step.
pub const PAGE_NUMBER_WIDTH: usize = 3;

/// Where a transformation runs: the directory it walks and how many worker
/// threads process the files found there.
pub struct Transform {
    pub src_dir: String,
    pub thread_pool_num: usize,
}

/// One item produced by walking the source directory (in file-name order).
pub enum WalkEntry {
    /// The walk reported an error for this item.
    Unreadable,
    /// A directory, symlink or other non-regular file.
    Other,
    /// A regular file, with its extension when it has one.
    File { extension: Option<String> },
}

/// A rectangle cut out of an image.
#[derive(Clone, Copy, Debug, PartialEq, Eq, Structural)]
pub struct Crop {
    pub x: u32,
    pub y: u32,
    pub width: u32,
    pub height: u32,
}

/// How a landscape image is cut into two pages, and where they are written.
pub struct SplitPlan {
    pub left: Crop,
    pub right: Crop,
    pub left_path: String,
    pub right_path: String,
}

pub open spec fn webp_suffix() -> Seq<char> {
    seq!['.', 'w', 'e', 'b', 'p']
}

pub open spec fn resize_suffix() -> Seq<char> {
    seq!['.', 'r', 'e', 's', 'i', 'z', 'e'] + webp_suffix()
}

pub open spec fn split_left_suffix() -> Seq<char> {
    seq!['.', 's', 'p', 'l', 'i', 't', '.', 'l', 'e', 'f', 't'] + webp_suffix()
}

pub open spec fn split_right_suffix() -> Seq<char> {
    seq!['.', 's', 'p', 'l', 'i', 't', '.', 'r', 'i', 'g', 'h', 't'] + webp_suffix()
}

/// `n * 0.9` rounded to the nearest integer, halves away from zero.
pub open spec fn ninety_percent_rounded(n: nat) -> nat {
    (9 * n + 5) / 10
}

/// The bounds an image of `width` x `height` is next resized to, or `None`
/// once it is small enough.
pub open spec fn spec_resize_target(width: nat, height: nat) -> Option<(nat, nat)> {
    if width * height <= MAX_PIXELS {
        None
    } else {
        Some((ninety_percent_rounded(width), ninety_percent_rounded(height)))
    }
}

/// The left and right halves of a landscape image; `None` for an image that
/// is at least as tall as it is wide.
pub open spec fn spec_split_crops(width: u32, height: u32) -> Option<(Crop, Crop)> {
    if height >= width {
        None
    } else {
        Some((
            Crop { x: 0, y: 0, width: width / 2, height },
            Crop { x: width / 2, y: 0, width: width / 2, height },
        ))
    }
}

/// The name a page gets when renumbered: its zero-padded number, a dot and
/// its extension.
pub open spec fn numbered_file_name(n: nat, extension: Seq<char>) -> Seq<char> {
    padded_decimal(n, PAGE_NUMBER_WIDTH as nat) + seq!['.'] + extension
}

pub open spec fn is_file(e: WalkEntry) -> bool {
    e is File
}

/// How many of `entries` are regular files.
pub open spec fn file_count(entries: Seq<WalkEntry>) -> nat
    decreases entries.len(),
{
    if entries.len() == 0 {
        0
    } else {
        file_count(entries.drop_last()) + if is_file(entries.last()) { 1nat } else { 0nat }
    }
}

/// The positions of the regular files among `entries`, in walk order.
pub open spec fn file_positions(entries: Seq<WalkEntry>) -> Seq<usize>
    decreases entries.len(),
{
    if entries.len() == 0 {
        Seq::empty()
    } else if is_file(entries.last()) {
        file_positions(entries.drop_last()).push((entries.len() - 1) as usize)
    } else {
        file_positions(entries.drop_last())
    }
}

/// The extension of a file entry as characters (empty for other entries).
pub open spec fn entry_extension(e: WalkEntry) -> Seq<char> {
    match e {
        WalkEntry::File { extension: Some(x) } => x@,
        _ => Seq::empty(),
    }
}

/// What the renaming step calls entry `i`: files are numbered from 1 in walk
/// order; other entries keep their name.
pub open spec fn rename_target(entries: Seq<WalkEntry>, i: int) -> Option<Seq<char>> {
    if is_file(entries[i]) {
        Some(numbered_file_name(file_count(entries.subrange(0, i)) + 1, entry_extension(entries[i])))
    } else {
        None
    }
}

/// The renaming step can run over `entries`: the walk reported no error and
/// every file has an extension.
pub open spec fn renamable(entries: Seq<WalkEntry>) -> bool {
    forall|i: int|
        0 <= i < entries.len() ==> match #[trigger] entries[i] {
            WalkEntry::Unreadable => false,
            WalkEntry::Other => true,
            WalkEntry::File { extension } => extension is Some,
        }
}

/// `s` spells the word given by `lower` and `upper` (the same word in lower
/// and upper case), each letter in either case.
pub open spec fn matches_ignoring_case(s: Seq<char>, lower: Seq<char>, upper: Seq<char>) -> bool {
    &&& s.len() == lower.len()
    &&& forall|i: int| 0 <= i < s.len() ==> s[i] == lower[i] || s[i] == upper[i]
}

/// The extensions of the image files pages are made from (JPEG, PNG and WebP,
/// the formats images are decoded from), in any letter case.
pub open spec fn is_image_extension(ext: Seq<char>) -> bool {
    ||| matches_ignoring_case(ext, seq!['j', 'p', 'g'], seq!['J', 'P', 'G'])
    ||| matches_ignoring_case(ext, seq!['j', 'p', 'e', 'g'], seq!['J', 'P', 'E', 'G'])
    ||| matches_ignoring_case(ext, seq!['p', 'n', 'g'], seq!['P', 'N', 'G'])
    ||| matches_ignoring_case(ext, seq!['w', 'e', 'b', 'p'], seq!['W', 'E', 'B', 'P'])
}

/// Whether a file with this extension (`None`: without one) is kept as a
/// page; every other file is removed before the images are converted.
pub open spec fn spec_is_page_file(extension: Option<Seq<char>>) -> bool {
    match extension {
        Some(e) => is_image_extension(e),
        None => false,
    }
}

fn eq_ignoring_case(s: &str, lower: &str, upper: &str) -> (r: bool)
    requires
        lower@.len() == upper@.len(),
    ensures
        r == matches_ignoring_case(s@, lower@, upper@),
{
    let n = s.unicode_len();
    let m = lower.unicode_len();
    if n != m {
        return false;
    }
    let mut i: usize = 0;
    while i < n
        invariant
            n == s@.len(),
            m == lower@.len(),
            m == upper@.len(),
            n == m,
            i <= n,
            forall|k: int| 0 <= k < i ==> s@[k] == lower@[k] || s@[k] == upper@[k],
        decreases n - i,
    {
        let c = s.get_char(i);
        if c != lower.get_char(i) && c != upper.get_char(i) {
            return false;
        }
        i = i + 1;
    }
    true
}

fn append_literal(s: String, suffix: &str) -> (r: String)
    ensures
        r@ == s@ + suffix@,
{
    s.concat(suffix)
}

impl Transform {
    /// Whether a file with this extension is an image kept as a page: JPEG,
    /// PNG or WebP by its extension, in any letter case. Files without an
    /// extension are not.
    pub fn is_page_file(extension: Option<&str>) -> (r: bool)
        ensures
            r == spec_is_page_file(match extension { Some(e) => Some(e@), None => None }),
    {
        proof {
            reveal_strlit("jpg");
            reveal_strlit("JPG");
            reveal_strlit("jpeg");
            reveal_strlit("JPEG");
            reveal_strlit("png");
            reveal_strlit("PNG");
            reveal_strlit("webp");
            reveal_strlit("WEBP");
            assert("jpg"@ =~= seq!['j', 'p', 'g']);
            assert("JPG"@ =~= seq!['J', 'P', 'G']);
            assert("jpeg"@ =~= seq!['j', 'p', 'e', 'g']);
            assert("JPEG"@ =~= seq!['J', 'P', 'E', 'G']);
            assert("png"@ =~= seq!['p', 'n', 'g']);
            assert("PNG"@ =~= seq!['P', 'N', 'G']);
            assert("webp"@ =~= seq!['w', 'e', 'b', 'p']);
            assert("WEBP"@ =~= seq!['W', 'E', 'B', 'P']);
        }
        match extension {
            None => false,
            Some(e) => {
                eq_ignoring_case(e, "jpg", "JPG") || eq_ignoring_case(e, "jpeg", "JPEG")
                    || eq_ignoring_case(e, "png", "PNG") || eq_ignoring_case(e, "webp", "WEBP")
            },
        }
    }

    /// The path the WebP conversion of `p` is written to: `p` followed by
    /// `.webp`.
    pub fn converted_path(p: &str) -> (r: String)
        ensures
            r@ == p@ + webp_suffix(),
    {
        proof { reveal_strlit(".webp"); }
        append_literal(String::from_str(p), ".webp")
    }

    /// The path the shrunk version of `p` is written to: `p` followed by
    /// `.resize.webp`.
    pub fn resized_path(p: &str) -> (r: String)
        ensures
            r@ == p@ + resize_suffix(),
    {
        proof { reveal_strlit(".resize.webp"); }
        let r = append_literal(String::from_str(p), ".resize.webp");
        assert(r@ =~= p@ + resize_suffix());
        r
    }

    /// The bounds the next shrinking pass resizes a `width` x `height` image
    /// to: 90% of each side, rounded, as long as the image holds more than
    /// `MAX_PIXELS` pixels; `None` once it holds no more.
    pub fn resize_target(width: u32, height: u32) -> (r: Option<(u32, u32)>)
        requires
            width * height <= u32::MAX,
        ensures
            match r {
                None => spec_resize_target(width as nat, height as nat) is None,
                Some((w, h)) => spec_resize_target(width as nat, height as nat) == Some((w as nat, h as nat)),
            },
    {
        let area: u32 = width * height;
        if area <= MAX_PIXELS {
            None
        } else {
            let w: u64 = (9 * (width as u64) + 5) / 10;
            let h: u64 = (9 * (height as u64) + 5) / 10;
            assert(w <= width) by (nonlinear_arith)
                requires w == (9 * (width as u64) + 5) / 10, width >= 0;
            assert(h <= height) by (nonlinear_arith)
                requires h == (9 * (height as u64) + 5) / 10, height >= 0;
            Some((w as u32, h as u32))
        }
    }

    /// How a `width` x `height` image stored at `p` is split: a landscape
    /// image (wider than tall) is cut into a left and a right half, written
    /// next to `p` with `.split.left.webp` and `.split.right.webp`; any other
    /// image is left whole (`None`).
    pub fn split_plan(p: &str, width: u32, height: u32) -> (r: Option<SplitPlan>)
        ensures
            match r {
                None => spec_split_crops(width, height) is None,
                Some(plan) => {
                    &&& spec_split_crops(width, height) == Some((plan.left, plan.right))
                    &&& plan.left_path@ == p@ + split_left_suffix()
                    &&& plan.right_path@ == p@ + split_right_suffix()
                },
            },
    {
        if height >= width {
            return None;
        }
        let half = width / 2;
        proof {
            reveal_strlit(".split.left.webp");
            reveal_strlit(".split.right.webp");
        }
        let left_path = append_literal(String::from_str(p), ".split.left.webp");
        let right_path = append_literal(String::from_str(p), ".split.right.webp");
        assert(left_path@ =~= p@ + split_left_suffix());
        assert(right_path@ =~= p@ + split_right_suffix());
        Some(SplitPlan {
            left: Crop { x: 0, y: 0, width: half, height },
            right: Crop { x: half, y: 0, width: half, height },
            left_path,
            right_path,
        })
    }

    /// The positions of the entries a directory walk hands to the worker
    /// threads: the regular files, in walk order. The walk reports how many
    /// files it processed, which is the length of this list.
    pub fn file_jobs(entries: &Vec<WalkEntry>) -> (r: Vec<usize>)
        ensures
            r@ == file_positions(entries@),
            r@.len() == file_count(entries@),
    {
        let mut r: Vec<usize> = Vec::new();
        let mut i: usize = 0;
        while i < entries.len()
            invariant
                i <= entries@.len(),
                r@ == file_positions(entries@.subrange(0, i as int)),
                r@.len() == file_count(entries@.subrange(0, i as int)),
            decreases entries@.len() - i,
        {
            let ghost pre = entries@.subrange(0, i as int);
            let ghost next = entries@.subrange(0, i + 1);
            assert(next.drop_last() =~= pre);
            assert(next.last() == entries@[i as int]);
            match &entries[i] {
                WalkEntry::File { .. } => {
                    r.push(i);
                },
                _ => {},
            }
            i = i + 1;
        }
        assert(entries@.subrange(0, entries@.len() as int) =~= entries@);
        r
    }

    /// The name of the page numbered `n` with the given extension: `n`
    /// zero-padded to three digits, a dot, the extension (`format!("{:03}.{}")`).
    pub fn numbered_name(n: u64, extension: &str) -> (r: String)
        ensures
            r@ == numbered_file_name(n as nat, extension@),
    {
        let digits = padded_decimal_string(n, PAGE_NUMBER_WIDTH);
        proof { reveal_strlit("."); }
        let with_dot = digits.concat(".");
        let r = with_dot.concat(extension);
        assert(r@ =~= numbered_file_name(n as nat, extension@));
        r
    }

    /// The new file name of each walked entry in the renaming step: the
    /// regular files are numbered 1, 2, 3, ... in walk order and keep their
    /// extension; other entries are not renamed (`None`).
    pub fn rename_targets(entries: &Vec<WalkEntry>) -> (r: Vec<Option<String>>)
        requires
            renamable(entries@),
            file_count(entries@) < 0x7fff_ffff,
        ensures
            r@.len() == entries@.len(),
            forall|i: int| 0 <= i < entries@.len() ==> match #[trigger] r@[i] {
                None => rename_target(entries@, i) is None,
                Some(name) => rename_target(entries@, i) == Some(name@),
            },
    {
        let mut r: Vec<Option<String>> = Vec::new();
        let mut i: usize = 0;
        let mut n: u64 = 1;
        while i < entries.len()
            invariant
                i <= entries@.len(),
                file_count(entries@) < 0x7fff_ffff,
                renamable(entries@),
                r@.len() == i,
                n == file_count(entries@.subrange(0, i as int)) + 1,
                forall|k: int| 0 <= k < i ==> match #[trigger] r@[k] {
                    None => rename_target(entries@, k) is None,
                    Some(name) => rename_target(entries@, k) == Some(name@),
                },
            decreases entries@.len() - i,
        {
            let ghost pre = entries@.subrange(0, i as int);
            let ghost next = entries@.subrange(0, i + 1);
            assert(next.drop_last() =~= pre);
            assert(next.last() == entries@[i as int]);
            let ghost e = entries@[i as int];
            assert(match e {
                WalkEntry::Unreadable => false,
                WalkEntry::Other => true,
                WalkEntry::File { extension } => extension is Some,
            });
            match &entries[i] {
                WalkEntry::File { extension: Some(ext) } => {
                    proof {
                        lemma_file_count_prefix(entries@, i as int, entries@.len() as int);
                        assert(entries@.subrange(0, entries@.len() as int) =~= entries@);
                    }
                    let name = Self::numbered_name(n, ext.as_str());
                    r.push(Some(name));
                    n = n + 1;
                },
                _ => {
                    r.push(None);
                },
            }
            i = i + 1;
        }
        r
    }
}


/// A shrinking pass never enlarges a side, keeps both sides positive, and
/// strictly reduces the pixel count of the bounds, so repeated passes end.
pub proof fn lemma_resize_target_shrinks(width: nat, height: nat)
    requires
        spec_resize_target(width, height) is Some,
    ensures
        ({
            let (w, h) = spec_resize_target(width, height)->0;
            &&& 1 <= w <= width
            &&& 1 <= h <= height
            &&& w * h < width * height
        }),
{
    let w = ninety_percent_rounded(width);
    let h = ninety_percent_rounded(height);
    assert(width * height > 500_000);
    assert(width >= 1 && height >= 1) by (nonlinear_arith)
        requires width * height > 500_000;
    assert(w <= width && w >= 1) by (nonlinear_arith)
        requires w == (9 * width + 5) / 10, width >= 1;
    assert(h <= height && h >= 1) by (nonlinear_arith)
        requires h == (9 * height + 5) / 10, height >= 1;
    // One side is at least 708, and 90% of it is strictly smaller.
    if width >= 6 {
        assert(w < width) by (nonlinear_arith)
            requires w == (9 * width + 5) / 10, width >= 6;
        assert(w * h < width * height) by (nonlinear_arith)
            requires w < width, h <= height, h >= 1, w >= 1;
    } else {
        assert(height >= 6) by (nonlinear_arith)
            requires width * height > 500_000, width <= 5;
        assert(h < height) by (nonlinear_arith)
            requires h == (9 * height + 5) / 10, height >= 6;
        assert(w * h < width * height) by (nonlinear_arith)
            requires h < height, w <= width, w >= 1, h >= 1;
    }
}

/// The two halves of a split image have the full height and the same width,
/// lie side by side inside the image, and together cover every column but
/// the last one of an odd width.
pub proof fn lemma_split_halves(width: u32, height: u32)
    requires
        spec_split_crops(width, height) is Some,
    ensures
        ({
            let (l, r) = spec_split_crops(width, height)->0;
            &&& l.x == 0 && l.y == 0 && r.y == 0
            &&& l.height == height && r.height == height
            &&& l.width == r.width
            &&& r.x == l.x + l.width
            &&& r.x + r.width <= width
            &&& l.width + r.width + width % 2 == width
        }),
{
}

/// Page names with different numbers differ, whatever their extensions.
pub proof fn lemma_numbered_names_distinct(a: nat, b: nat, ext_a: Seq<char>, ext_b: Seq<char>)
    requires
        a != b,
    ensures
        numbered_file_name(a, ext_a) != numbered_file_name(b, ext_b),
{
    let pa = padded_decimal(a, PAGE_NUMBER_WIDTH as nat);
    let pb = padded_decimal(b, PAGE_NUMBER_WIDTH as nat);
    let na = numbered_file_name(a, ext_a);
    let nb = numbered_file_name(b, ext_b);
    lemma_padded_decimal_shape(a, PAGE_NUMBER_WIDTH as nat);
    lemma_padded_decimal_shape(b, PAGE_NUMBER_WIDTH as nat);
    if na == nb {
        if pa.len() < pb.len() {
            assert(na[pa.len() as int] == '.');
            assert(nb[pa.len() as int] == pb[pa.len() as int]);
            assert(is_digit(pb[pa.len() as int]));
        } else if pb.len() < pa.len() {
            assert(nb[pb.len() as int] == '.');
            assert(na[pb.len() as int] == pa[pb.len() as int]);
            assert(is_digit(pa[pb.len() as int]));
        } else {
            assert(pa =~= na.subrange(0, pa.len() as int));
            assert(pb =~= nb.subrange(0, pb.len() as int));
            lemma_padded_decimal_injective(a, b, PAGE_NUMBER_WIDTH as nat);
        }
    }
}

/// Counting files over a longer prefix of a walk never gives less, and
/// passing a file adds one.
pub proof fn lemma_file_count_prefix(entries: Seq<WalkEntry>, i: int, j: int)
    requires
        0 <= i < j <= entries.len(),
    ensures
        file_count(entries.subrange(0, j)) >= file_count(entries.subrange(0, i))
            + if is_file(entries[i]) { 1nat } else { 0nat },
    decreases j - i,
{
    let sj = entries.subrange(0, j);
    assert(sj.drop_last() =~= entries.subrange(0, j - 1));
    assert(sj.last() == entries[j - 1]);
    if j - 1 > i {
        lemma_file_count_prefix(entries, i, j - 1);
    }
}

/// The renaming step never gives two files of a walk the same name.
pub proof fn lemma_rename_targets_distinct(entries: Seq<WalkEntry>, i: int, j: int)
    requires
        0 <= i < entries.len(),
        0 <= j < entries.len(),
        i != j,
        rename_target(entries, i) is Some,
        rename_target(entries, j) is Some,
    ensures
        rename_target(entries, i) != rename_target(entries, j),
{
    if i < j {
        lemma_file_count_prefix(entries, i, j);
    } else {
        lemma_file_count_prefix(entries, j, i);
    }
    lemma_numbered_names_distinct(
        file_count(entries.subrange(0, i)) + 1,
        file_count(entries.subrange(0, j)) + 1,
        entry_extension(entries[i]),
        entry_extension(entries[j]),
    );
}

/// The jobs of a directory walk are exactly the regular files, each taken
/// once, in walk order.
pub proof fn lemma_file_positions(entries: Seq<WalkEntry>)
    requires
        entries.len() <= usize::MAX,
    ensures
        file_positions(entries).len() == file_count(entries),
        forall|k: int| 0 <= k < file_positions(entries).len() ==> {
            &&& (#[trigger] file_positions(entries)[k]) < entries.len()
            &&& is_file(entries[file_positions(entries)[k] as int])
        },
        forall|k: int, l: int| 0 <= k < l < file_positions(entries).len() ==>
            #[trigger] file_positions(entries)[k] < #[trigger] file_positions(entries)[l],
        forall|p: int| 0 <= p < entries.len() && is_file(#[trigger] entries[p]) ==>
            file_positions(entries).contains(p as usize),
    decreases entries.len(),
{
    if entries.len() > 0 {
        let pre = entries.drop_last();
        lemma_file_positions(pre);
        let fp = file_positions(pre);
        let all = file_positions(entries);
        let last = (entries.len() - 1) as usize;
        assert(forall|p: int| 0 <= p < pre.len() ==> pre[p] == entries[p]);
        if is_file(entries.last()) {
            assert(all == fp.push(last));
        } else {
            assert(all == fp);
        }
        assert(forall|k: int| 0 <= k < fp.len() ==> all[k] == fp[k]);
        assert forall|k: int| 0 <= k < all.len() implies {
            &&& (#[trigger] all[k]) < entries.len()
            &&& is_file(entries[all[k] as int])
        } by {
            if k < fp.len() {
                assert(pre[fp[k] as int] == entries[fp[k] as int]);
            }
        }
        assert forall|k: int, l: int| 0 <= k < l < all.len() implies
            #[trigger] all[k] < #[trigger] all[l] by {
            if l < fp.len() {
            } else {
                assert(fp[k] < pre.len());
            }
        }
        assert forall|p: int| 0 <= p < entries.len() && is_file(#[trigger] entries[p]) implies
            all.contains(p as usize) by {
            if p < entries.len() - 1 {
                assert(pre[p] == entries[p]);
                assert(is_file(pre[p]));
                let k = choose|k: int| 0 <= k < fp.len() && fp[k] == p as usize;
                assert(all[k] == p as usize);
            } else {
                assert(all[all.len() - 1] == p as usize);
            }
        }
    }
}


/// Renumbered pages sort by name in walk order, as long as the walk holds
/// fewer than 1000 files (the page numbers have three digits).
pub proof fn lemma_rename_targets_sorted(entries: Seq<WalkEntry>, i: int, j: int)
    requires
        0 <= i < j < entries.len(),
        rename_target(entries, i) is Some,
        rename_target(entries, j) is Some,
        file_count(entries) < 1000,
    ensures
        lex_less(rename_target(entries, i)->0, rename_target(entries, j)->0),
{
    lemma_file_count_prefix(entries, i, j);
    if j + 1 <= entries.len() {
        lemma_file_count_prefix(entries, j, entries.len() as int);
        assert(entries.subrange(0, entries.len() as int) =~= entries);
    }
    let a = file_count(entries.subrange(0, i)) + 1;
    let b = file_count(entries.subrange(0, j)) + 1;
    let ea = entry_extension(entries[i]);
    let eb = entry_extension(entries[j]);
    lemma_three_digit_order(a, b, seq!['.'] + ea, seq!['.'] + eb);
    assert(numbered_file_name(a, ea) =~= padded_decimal(a, 3) + (seq!['.'] + ea));
    assert(numbered_file_name(b, eb) =~= padded_decimal(b, 3) + (seq!['.'] + eb));
}

/// Every landscape image (wider than tall) is split, and only those: the
/// left half starts at the left edge, the right half at `width / 2`, each
/// `width / 2` wide and as tall as the image.
pub proof fn lemma_split_exactly_landscape(width: u32, height: u32)
    ensures
        spec_split_crops(width, height) is Some <==> width > height,
        width > height ==> spec_split_crops(width, height) == Some((
            Crop { x: 0, y: 0, width: width / 2, height: height },
            Crop { x: width / 2, y: 0, width: width / 2, height: height },
        )),
{
}

/// A character with ASCII capitals turned into small letters.
pub open spec fn ascii_lowercase(c: char) -> char {
    if 'A' <= c && c <= 'Z' {
        ((c as u32) + 32) as char
    } else {
        c
    }
}

/// A file is kept as a page exactly when it has an extension which, with its
/// capitals made small, is `jpg`, `jpeg`, `png` or `webp`: so every mix of
/// cases of these four is kept, and nothing else is.
pub proof fn lemma_page_file_extensions(e: Seq<char>)
    ensures
        spec_is_page_file(Some(e)) <==> {
            let l = e.map_values(|c: char| ascii_lowercase(c));
            ||| l == "jpg"@
            ||| l == "jpeg"@
            ||| l == "png"@
            ||| l == "webp"@
        },
        !spec_is_page_file(None),
{
    reveal_strlit("jpg");
    reveal_strlit("jpeg");
    reveal_strlit("png");
    reveal_strlit("webp");
    let l = e.map_values(|c: char| ascii_lowercase(c));
    lemma_lowercase_matches(e, seq!['j', 'p', 'g'], seq!['J', 'P', 'G']);
    lemma_lowercase_matches(e, seq!['j', 'p', 'e', 'g'], seq!['J', 'P', 'E', 'G']);
    lemma_lowercase_matches(e, seq!['p', 'n', 'g'], seq!['P', 'N', 'G']);
    lemma_lowercase_matches(e, seq!['w', 'e', 'b', 'p'], seq!['W', 'E', 'B', 'P']);
    assert("jpg"@ =~= seq!['j', 'p', 'g']);
    assert("jpeg"@ =~= seq!['j', 'p', 'e', 'g']);
    assert("png"@ =~= seq!['p', 'n', 'g']);
    assert("webp"@ =~= seq!['w', 'e', 'b', 'p']);
}

/// For a word of small letters and its capitals, matching either case at
/// each position is the same as lowercasing to the word.
proof fn lemma_lowercase_matches(e: Seq<char>, lower: Seq<char>, upper: Seq<char>)
    requires
        lower.len() == upper.len(),
        forall|i: int| 0 <= i < lower.len() ==> 'a' <= #[trigger] lower[i] <= 'z'
            && upper[i] == ((lower[i] as u32 - 32) as u32) as char,
    ensures
        matches_ignoring_case(e, lower, upper) <==> e.map_values(|c: char| ascii_lowercase(c)) == lower,
{
    let l = e.map_values(|c: char| ascii_lowercase(c));
    if matches_ignoring_case(e, lower, upper) {
        assert forall|i: int| 0 <= i < e.len() implies l[i] == lower[i] by {
            if e[i] == upper[i] {
                assert(((upper[i] as u32) + 32) as char == lower[i]);
            }
        }
        assert(l =~= lower);
    }
    if l == lower {
        assert forall|i: int| 0 <= i < e.len() implies e[i] == lower[i] || e[i] == upper[i] by {
            assert(l[i] == ascii_lowercase(e[i]));
            if 'A' <= e[i] && e[i] <= 'Z' {
                let n = (e[i] as u32) + 32;
                assert(65 <= e[i] as u32 <= 90);
                assert((n as char) as u32 == n);
                assert(lower[i] as u32 == n);
                assert((e[i] as u32) as char == e[i]);
                assert(upper[i] == e[i]);
            }
        }
    }
}

/// The name a renumbered page gets is a run of digits that reads as its
/// number, a dot and its extension; numbers below 1000 get exactly three
/// digits.
pub proof fn lemma_numbered_name_reads_back(n: nat, extension: Seq<char>)
    ensures
        ({
            let f = numbered_file_name(n, extension);
            let d = (f.len() - extension.len() - 1) as int;
            let digits = f.subrange(0, d);
            &&& d >= 3
            &&& f[d] == '.'
            &&& f.subrange(d + 1, f.len() as int) == extension
            &&& decimal_value(digits) == n
            &&& forall|k: int| 0 <= k < digits.len() ==> is_digit(#[trigger] digits[k])
            &&& n < 1000 ==> d == 3
        }),
{
    let p = padded_decimal(n, PAGE_NUMBER_WIDTH as nat);
    lemma_padded_decimal_value(n, PAGE_NUMBER_WIDTH as nat);
    let f = numbered_file_name(n, extension);
    let d = p.len() as int;
    assert(f.subrange(0, d) =~= p);
    assert(f.subrange(d + 1, f.len() as int) =~= extension);
    assert(pow10(3) == 1000) by {
        reveal_with_fuel(pow10, 4);
    }
}

/// A shrinking pass applies exactly to images of more than 500000 pixels,
/// and resizes each side to 90% of it, rounded to the nearest integer
/// (halves rounded up).
pub proof fn lemma_resize_target_rounds(width: nat, height: nat)
    ensures
        spec_resize_target(width, height) is None <==> width * height <= 500_000,
        spec_resize_target(width, height) matches Some((w, h)) ==> {
            &&& 10 * w <= 9 * width + 5 < 10 * w + 10
            &&& 10 * h <= 9 * height + 5 < 10 * h + 10
        },
{
}

/// The halves of a split page are written next to it with
/// `.split.left.webp` and `.split.right.webp`, and a shrunk page with
/// `.resize.webp`.
pub proof fn lemma_transform_names()
    ensures
        split_left_suffix() == ".split.left.webp"@,
        split_right_suffix() == ".split.right.webp"@,
        resize_suffix() == ".resize.webp"@,
{
    reveal_strlit(".split.left.webp");
    reveal_strlit(".split.right.webp");
    reveal_strlit(".resize.webp");
    assert(split_left_suffix() =~= ".split.left.webp"@);
    assert(split_right_suffix() =~= ".split.right.webp"@);
    assert(resize_suffix() =~= ".resize.webp"@);
}

/// Renaming numbers the files of the walk from 1 in walk order, each keeping
/// its extension, and leaves every other entry alone: the `k`-th file (from
/// 0) is renamed to number `k + 1`.
pub proof fn lemma_rename_numbers(entries: Seq<WalkEntry>, k: int)
    requires
        entries.len() <= usize::MAX,
        0 <= k < file_positions(entries).len(),
    ensures
        ({
            let p = file_positions(entries)[k] as int;
            rename_target(entries, p) == Some(numbered_file_name((k + 1) as nat, entry_extension(entries[p])))
        }),
        forall|i: int| 0 <= i < entries.len() ==> (rename_target(entries, i) is Some <==> #[trigger] is_file(entries[i])),
    decreases entries.len(),
{
    lemma_file_positions(entries);
    let pre = entries.drop_last();
    let n = entries.len() - 1;
    lemma_file_positions(pre);
    if is_file(entries.last()) && k == file_positions(pre).len() {
        assert(file_positions(entries)[k] == n);
        assert(entries.subrange(0, n) =~= pre);
    } else {
        assert(file_positions(entries)[k] == file_positions(pre)[k]);
        lemma_rename_numbers(pre, k);
        let p = file_positions(pre)[k] as int;
        assert(entries.subrange(0, p) =~= pre.subrange(0, p));
        assert(entries[p] == pre[p]);
    }
}

} // verus!
