//! How the entries of a zip archive are extracted and how a directory tree
//! is added to one.

use vstd::prelude::*;
use vstd::string::*;
use crate::decimal::{
    decimal_value, is_digit, lemma_padded_decimal_injective, lemma_padded_decimal_value, padded_decimal,
    padded_decimal_string,
};
use crate::text::{count_char, count_char_in, has_suffix, str_ends_with};

verus! {

/// Width of the page numbers given to extracted files when they are renamed
/// as they are extracted.
pub const EXTRACTED_PAGE_WIDTH: usize = 4;

/// One entry of a zip archive that `zip` could open, as read from the
/// archive's bytes.
pub struct ArchiveEntry {
    /// The entry's name as stored in the archive.
    pub name: String,
    /// Whether the name is a safe relative path (one that cannot escape the
    /// extraction directory).
    pub enclosed: bool,
    /// The Unix permission bits stored for the entry, if any.
    pub unix_mode: Option<u32>,
    /// The entry's uncompressed contents, read for the entries that are
    /// written out as files; `None` for the other entries, and for a file
    /// entry whose data cannot be read.
    pub contents: Option<Vec<u8>>,
}

/// What extracting a zip archive does: its entries in archive order, up to
/// the first one that cannot be opened, what is done with each, and which
/// entry names the extraction root.
pub struct ExtractionPlan {
    pub entries: Vec<ArchiveEntry>,
    pub actions: Vec<EntryAction>,
    pub root: Option<usize>,
    /// Whether every entry of the archive could be opened (extraction stops
    /// at the first one that cannot).
    pub complete: bool,
}

/// The number of entries `zip` finds in the bytes of an archive; `None`
/// when the bytes are not a readable zip archive.
pub uninterp spec fn zip_entry_count(data: Seq<u8>) -> Option<nat>;

/// The name, whether that name is enclosed, and the Unix mode of the entry
/// at `index`, as `zip` reports them once the entry is opened; `None` when it
/// cannot be opened.
pub uninterp spec fn zip_entry_header(data: Seq<u8>, index: nat) -> Option<(Seq<char>, bool, Option<u32>)>;

/// The uncompressed contents of the entry at `index`; `None` when the entry
/// cannot be opened or its data cannot be read.
pub uninterp spec fn zip_entry_contents(data: Seq<u8>, index: nat) -> Option<Seq<u8>>;

/// An optional byte buffer as plain values.
pub open spec fn bytes_view(o: Option<Vec<u8>>) -> Option<Seq<u8>> {
    match o {
        Some(v) => Some(v@),
        None => None,
    }
}

/// An entry's header as plain values.
pub open spec fn header_view(e: ArchiveEntry) -> (Seq<char>, bool, Option<u32>) {
    (e.name@, e.enclosed, e.unix_mode)
}

/// The number of entries of a zip archive held in memory:
/// `zip::ZipArchive::new` over the bytes, then `len`. The result is named
/// (`zip_entry_count`, a function of the bytes alone).
#[verifier::external_body]
fn read_zip_len(data: &[u8]) -> (r: Option<usize>)
    ensures
        match r {
            None => zip_entry_count(data@) is None,
            Some(n) => zip_entry_count(data@) == Some(n as nat),
        },
{
    Some(zip::ZipArchive::new(std::io::Cursor::new(data)).ok()?.len())
}

/// Opens the entry at `index` of a zip archive held in memory:
/// `zip::ZipArchive::new`, then `by_index_decrypt` with an empty password,
/// then `name`, `enclosed_name` and `unix_mode`. For an entry that is not
/// encrypted `zip` discards the password, and the call opens the entry as
/// `by_index` does, but returns where `by_index` would panic (an AES field on
/// an entry not marked encrypted); for an encrypted entry, which `by_index`
/// refuses, the empty password is tried. The result is named
/// (`zip_entry_header`, a function of the bytes and the index alone); `None`
/// when the archive or the entry cannot be opened.
#[verifier::external_body]
fn read_zip_header(data: &[u8], index: usize) -> (r: Option<(String, bool, Option<u32>)>)
    ensures
        match r {
            None => zip_entry_header(data@, index as nat) is None,
            Some(h) => zip_entry_header(data@, index as nat) == Some((h.0@, h.1, h.2)),
        },
{
    let mut archive = zip::ZipArchive::new(std::io::Cursor::new(data)).ok()?;
    let file = archive.by_index_decrypt(index, b"").ok()?.ok()?;
    let enclosed = file.enclosed_name().is_some();
    Some((file.name().to_string(), enclosed, file.unix_mode()))
}

/// Reads the contents of the entry at `index` of a zip archive held in
/// memory: `zip::ZipArchive::new`, `by_index_decrypt` as above, then
/// `read_to_end`. The result is named (`zip_entry_contents`, a function of
/// the bytes and the index alone); `None` when the entry cannot be opened or
/// read.
#[verifier::external_body]
fn read_zip_contents(data: &[u8], index: usize) -> (r: Option<Vec<u8>>)
    ensures
        zip_entry_contents(data@, index as nat) == bytes_view(r),
{
    let mut archive = zip::ZipArchive::new(std::io::Cursor::new(data)).ok()?;
    let mut file = archive.by_index_decrypt(index, b"").ok()?.ok()?;
    let mut contents = Vec::new();
    std::io::Read::read_to_end(&mut file, &mut contents).ok()?;
    Some(contents)
}

/// What the extractor does with an entry.
#[derive(Clone, Copy, Debug, PartialEq, Eq, Structural)]
pub enum EntryAction {
    /// The name is unsafe: the entry is not extracted.
    Skip,
    /// A directory entry: the directory is created.
    CreateDirectory,
    /// A file entry: its parent directories are created and it is written.
    WriteFile,
}

/// What the compressor does with an item found under the source directory.
#[derive(Clone, Copy, Debug, PartialEq, Eq, Structural)]
pub enum CompressAction {
    /// A regular file: it is added with its contents.
    AddFile,
    /// A directory below the source directory: it is added as a directory.
    AddDirectory,
    /// The source directory itself: nothing is added.
    Skip,
}

pub open spec fn slash() -> Seq<char> {
    seq!['/']
}

/// An entry name denotes a directory when it ends with `'/'`.
pub open spec fn is_directory_name(name: Seq<char>) -> bool {
    has_suffix(name, slash())
}

/// A directory entry at the top of the archive: its name holds a single
/// `'/'`, the final one.
pub open spec fn is_top_level_directory(name: Seq<char>) -> bool {
    is_directory_name(name) && count_char(name, '/') == 1
}

pub open spec fn spec_entry_action(e: ArchiveEntry) -> EntryAction {
    if !e.enclosed {
        EntryAction::Skip
    } else if is_directory_name(e.name@) {
        EntryAction::CreateDirectory
    } else {
        EntryAction::WriteFile
    }
}

/// The entry whose directory is reported as the extraction root: the last
/// extracted top-level directory entry, if any.
pub open spec fn spec_extraction_root(entries: Seq<ArchiveEntry>) -> Option<int>
    decreases entries.len(),
{
    if entries.len() == 0 {
        None
    } else if entries.last().enclosed && is_top_level_directory(entries.last().name@) {
        Some(entries.len() - 1)
    } else {
        spec_extraction_root(entries.drop_last())
    }
}

pub open spec fn png_suffix() -> Seq<char> {
    seq!['.', 'p', 'n', 'g']
}

/// The file name given to the `i`-th entry when extracted pages are renamed:
/// `i` zero-padded to four digits and `.png` (`format!("{:04}.png", i)`).
pub open spec fn spec_page_file_name(i: nat) -> Seq<char> {
    padded_decimal(i, EXTRACTED_PAGE_WIDTH as nat) + png_suffix()
}

pub open spec fn spec_compress_action(is_file: bool, relative_name_is_empty: bool) -> CompressAction {
    if is_file {
        CompressAction::AddFile
    } else if !relative_name_is_empty {
        CompressAction::AddDirectory
    } else {
        CompressAction::Skip
    }
}

/// Whether an entry name denotes a directory.
pub fn is_directory_entry(name: &str) -> (r: bool)
    ensures
        r == is_directory_name(name@),
{
    proof {
        reveal_strlit("/");
        assert("/"@ =~= slash());
    }
    str_ends_with(name, "/")
}

/// Whether an entry is a directory at the top of the archive.
pub fn is_top_level_directory_entry(name: &str) -> (r: bool)
    ensures
        r == is_top_level_directory(name@),
{
    is_directory_entry(name) && count_char_in(name, '/') == 1
}

/// What extraction does with an entry: unsafe names are skipped, directory
/// entries become directories, all others files.
pub fn entry_action(entry: &ArchiveEntry) -> (r: EntryAction)
    ensures
        r == spec_entry_action(*entry),
{
    if !entry.enclosed {
        EntryAction::Skip
    } else if is_directory_entry(entry.name.as_str()) {
        EntryAction::CreateDirectory
    } else {
        EntryAction::WriteFile
    }
}

/// Which entry names the directory an archive was extracted into: the last
/// top-level directory among the extracted entries (`None` when there is
/// none, and extraction reports an empty path).
pub fn extraction_root(entries: &Vec<ArchiveEntry>) -> (r: Option<usize>)
    ensures
        match r {
            None => spec_extraction_root(entries@) is None,
            Some(i) => spec_extraction_root(entries@) == Some(i as int),
        },
{
    let mut i: usize = entries.len();
    assert(entries@.subrange(0, i as int) =~= entries@);
    while i > 0
        invariant
            i <= entries@.len(),
            spec_extraction_root(entries@) == spec_extraction_root(entries@.subrange(0, i as int)),
        decreases i,
    {
        let ghost pre = entries@.subrange(0, i as int);
        assert(pre.drop_last() =~= entries@.subrange(0, i - 1));
        assert(pre.last() == entries@[i - 1]);
        let e = &entries[i - 1];
        if e.enclosed && is_top_level_directory_entry(e.name.as_str()) {
            return Some(i - 1);
        }
        i = i - 1;
    }
    None
}

/// What extraction makes of the entries read so far: each entry is the
/// header `zip` reports for its index, holds the contents of its index
/// exactly when it is written out as a file, and has its action.
pub open spec fn entries_read(data: Seq<u8>, entries: Seq<ArchiveEntry>, actions: Seq<EntryAction>) -> bool {
    &&& actions.len() == entries.len()
    &&& forall|k: int| 0 <= k < entries.len() ==>
        zip_entry_header(data, k as nat) == Some(header_view(#[trigger] entries[k]))
    &&& forall|k: int| 0 <= k < entries.len() ==> #[trigger] actions[k] == spec_entry_action(entries[k])
    &&& forall|k: int| 0 <= k < entries.len() ==> bytes_view(#[trigger] entries[k].contents) == (
        if spec_entry_action(entries[k]) == EntryAction::WriteFile {
            zip_entry_contents(data, k as nat)
        } else {
            None
        })
}

/// How a zip archive held in memory is extracted: its entries as `zip`
/// reads them, in order, up to the first one that cannot be opened; the
/// action for each; the contents of those written out as files; and the
/// entry naming the extraction root. `None` exactly when the bytes are not a
/// readable zip archive.
pub fn extraction_plan(data: &[u8]) -> (r: Option<ExtractionPlan>)
    ensures
        r is None <==> zip_entry_count(data@) is None,
        r matches Some(p) ==> {
            &&& zip_entry_count(data@) matches Some(n)
            &&& p.entries@.len() <= n
            &&& p.complete <==> p.entries@.len() == n
            &&& !p.complete ==> zip_entry_header(data@, p.entries@.len()) is None
            &&& entries_read(data@, p.entries@, p.actions@)
            &&& match p.root {
                None => spec_extraction_root(p.entries@) is None,
                Some(i) => spec_extraction_root(p.entries@) == Some(i as int),
            }
        },
{
    let count = match read_zip_len(data) {
        None => {
            return None;
        },
        Some(n) => n,
    };
    let mut entries: Vec<ArchiveEntry> = Vec::new();
    let mut actions: Vec<EntryAction> = Vec::new();
    let mut i: usize = 0;
    let mut stopped = false;
    while i < count && !stopped
        invariant
            i <= count,
            zip_entry_count(data@) == Some(count as nat),
            entries@.len() == i,
            entries_read(data@, entries@, actions@),
            stopped ==> i < count && zip_entry_header(data@, i as nat) is None,
        decreases count - i + (if stopped { 0int } else { 1int }),
    {
        match read_zip_header(data, i) {
            None => {
                stopped = true;
            },
            Some((name, enclosed, unix_mode)) => {
                let mut entry = ArchiveEntry { name, enclosed, unix_mode, contents: None };
                let action = entry_action(&entry);
                if let EntryAction::WriteFile = action {
                    entry.contents = read_zip_contents(data, i);
                }
                entries.push(entry);
                actions.push(action);
                i = i + 1;
            },
        }
    }
    let root = extraction_root(&entries);
    Some(ExtractionPlan { entries, actions, root, complete: !stopped })
}

/// The file name of the `i`-th entry when pages are renamed on extraction.
pub fn page_file_name(i: u64) -> (r: String)
    ensures
        r@ == spec_page_file_name(i as nat),
{
    let digits = padded_decimal_string(i, EXTRACTED_PAGE_WIDTH);
    proof {
        reveal_strlit(".png");
        assert(".png"@ =~= png_suffix());
    }
    digits.concat(".png")
}

/// What compression does with an item of the source directory, given whether
/// it is a regular file and whether its path relative to the source
/// directory is empty (the source directory itself).
pub fn compress_action(is_file: bool, relative_name_is_empty: bool) -> (r: CompressAction)
    ensures
        r == spec_compress_action(is_file, relative_name_is_empty),
{
    if is_file {
        CompressAction::AddFile
    } else if !relative_name_is_empty {
        CompressAction::AddDirectory
    } else {
        CompressAction::Skip
    }
}


/// How the compressor stores the data of the files it adds.
#[derive(Clone, Copy, Debug, PartialEq, Eq, Structural)]
pub enum ArchiveMethod {
    /// Uncompressed.
    Stored,
}

/// The Unix permissions given to every entry the compressor adds.
pub const ARCHIVE_PERMISSIONS: u32 = 0o755;

/// An item found while walking the source directory: its path relative to
/// the source directory, whether it is a regular file, and (for a file) its
/// contents.
pub struct SourceItem {
    pub relative_name: String,
    pub is_file: bool,
    pub contents: Vec<u8>,
}

/// The bytes of the zip archive that `zip::ZipWriter` writes in memory for
/// the given entries, in order: a name with `Some(contents)` is a file, a
/// name with `None` a directory, each with the given method and
/// permissions. `None` when the writer reports a failure.
pub uninterp spec fn zip_bytes(items: Seq<(Seq<char>, Option<Seq<u8>>)>, method: ArchiveMethod, permissions: u32) -> Option<Seq<u8>>;

/// An entry to be written, as plain values.
pub open spec fn zip_item_view(item: (String, Option<Vec<u8>>)) -> (Seq<char>, Option<Seq<u8>>) {
    (item.0@, bytes_view(item.1))
}

/// Writes a zip archive in memory: `zip::ZipWriter::new` over a
/// `Cursor<Vec<u8>>`; for each entry in order, `start_file_from_path` and
/// `write_all` (a file) or `add_directory_from_path` (a directory), with
/// `FileOptions` carrying the method and permissions; then `finish`. The
/// result is named (`zip_bytes`, a function of the arguments alone: without
/// its `time` feature `zip` stamps every entry with the same fixed date).
#[verifier::external_body]
#[allow(deprecated)]
fn write_zip(items: &Vec<(String, Option<Vec<u8>>)>, method: ArchiveMethod, permissions: u32) -> (r: Option<Vec<u8>>)
    ensures
        zip_bytes(items@.map_values(|it: (String, Option<Vec<u8>>)| zip_item_view(it)), method, permissions) == bytes_view(r),
{
    let method = match method { ArchiveMethod::Stored => zip::CompressionMethod::Stored };
    let options = zip::write::FileOptions::default().compression_method(method).unix_permissions(permissions);
    let mut writer = zip::ZipWriter::new(std::io::Cursor::new(Vec::new()));
    for (name, contents) in items.iter() {
        match contents {
            Some(bytes) => {
                writer.start_file_from_path(std::path::Path::new(name), options).ok()?;
                std::io::Write::write_all(&mut writer, bytes).ok()?;
            },
            None => writer.add_directory_from_path(std::path::Path::new(name), options).ok()?,
        }
    }
    Some(writer.finish().ok()?.into_inner())
}

/// The entries the compressor adds for the items of a walk, in walk order:
/// each file with its contents, each directory below the source directory
/// without, and nothing for the source directory itself.
pub open spec fn spec_compress_items(walk: Seq<SourceItem>) -> Seq<(Seq<char>, Option<Seq<u8>>)>
    decreases walk.len(),
{
    if walk.len() == 0 {
        Seq::empty()
    } else {
        let rest = spec_compress_items(walk.drop_last());
        let item = walk.last();
        match spec_compress_action(item.is_file, item.relative_name@.len() == 0) {
            CompressAction::AddFile => rest.push((item.relative_name@, Some(item.contents@))),
            CompressAction::AddDirectory => rest.push((item.relative_name@, None)),
            CompressAction::Skip => rest,
        }
    }
}

/// Compresses the items found under a source directory into a zip archive
/// held in memory: the entries of `spec_compress_items`, stored, with
/// permissions `0o755`. `None` when the zip writer reports a failure.
pub fn compress_archive(walk: &Vec<SourceItem>) -> (r: Option<Vec<u8>>)
    ensures
        bytes_view(r) == zip_bytes(spec_compress_items(walk@), ArchiveMethod::Stored, ARCHIVE_PERMISSIONS),
{
    let mut items: Vec<(String, Option<Vec<u8>>)> = Vec::new();
    let mut i: usize = 0;
    while i < walk.len()
        invariant
            i <= walk@.len(),
            items@.map_values(|it: (String, Option<Vec<u8>>)| zip_item_view(it))
                == spec_compress_items(walk@.subrange(0, i as int)),
        decreases walk@.len() - i,
    {
        let item = &walk[i];
        let ghost before = items@;
        let ghost prefix = walk@.subrange(0, i + 1);
        assert(prefix.drop_last() =~= walk@.subrange(0, i as int));
        assert(prefix.last() == walk@[i as int]);
        match compress_action(item.is_file, item.relative_name.as_str().is_empty()) {
            CompressAction::AddFile => {
                let contents = item.contents.clone();
                assert(contents@ =~= item.contents@);
                let entry = (item.relative_name.clone(), Some(contents));
                items.push(entry);
                assert(items@.map_values(|it: (String, Option<Vec<u8>>)| zip_item_view(it)) =~= before.map_values(
                    |it: (String, Option<Vec<u8>>)| zip_item_view(it)).push(zip_item_view(entry)));
            },
            CompressAction::AddDirectory => {
                let entry = (item.relative_name.clone(), None);
                items.push(entry);
                assert(items@.map_values(|it: (String, Option<Vec<u8>>)| zip_item_view(it)) =~= before.map_values(
                    |it: (String, Option<Vec<u8>>)| zip_item_view(it)).push(zip_item_view(entry)));
            },
            CompressAction::Skip => {},
        }
        i = i + 1;
    }
    assert(walk@.subrange(0, walk@.len() as int) =~= walk@);
    write_zip(&items, ArchiveMethod::Stored, ARCHIVE_PERMISSIONS)
}

/// The reported extraction root is an extracted top-level directory entry
/// (one that extraction creates), and no later entry is one; when none is
/// reported, the archive holds no extracted top-level directory entry.
pub proof fn lemma_extraction_root(entries: Seq<ArchiveEntry>)
    ensures
        match spec_extraction_root(entries) {
            Some(i) => {
                &&& 0 <= i < entries.len()
                &&& entries[i].enclosed
                &&& is_top_level_directory(entries[i].name@)
                &&& spec_entry_action(entries[i]) == EntryAction::CreateDirectory
                &&& forall|j: int| i < j < entries.len() ==>
                    !(#[trigger] entries[j].enclosed && is_top_level_directory(entries[j].name@))
            },
            None => forall|j: int| 0 <= j < entries.len() ==>
                !(#[trigger] entries[j].enclosed && is_top_level_directory(entries[j].name@)),
        },
    decreases entries.len(),
{
    if entries.len() > 0 {
        let pre = entries.drop_last();
        lemma_extraction_root(pre);
        assert(forall|j: int| 0 <= j < pre.len() ==> pre[j] == entries[j]);
    }
}

/// Pages renamed on extraction get distinct names.
pub proof fn lemma_page_file_names_distinct(a: nat, b: nat)
    requires
        a != b,
    ensures
        spec_page_file_name(a) != spec_page_file_name(b),
{
    let pa = padded_decimal(a, EXTRACTED_PAGE_WIDTH as nat);
    let pb = padded_decimal(b, EXTRACTED_PAGE_WIDTH as nat);
    if spec_page_file_name(a) == spec_page_file_name(b) {
        let na = spec_page_file_name(a);
        assert(na.len() == pa.len() + 4);
        assert(spec_page_file_name(b).len() == pb.len() + 4);
        assert(pa =~= na.subrange(0, pa.len() as int));
        assert(pb =~= spec_page_file_name(b).subrange(0, pb.len() as int));
        lemma_padded_decimal_injective(a, b, EXTRACTED_PAGE_WIDTH as nat);
    }
}

/// The number of `c` in `s` is zero exactly when no character of `s` is `c`.
proof fn lemma_count_char_zero(s: Seq<char>, c: char)
    ensures
        count_char(s, c) == 0 <==> forall|k: int| 0 <= k < s.len() ==> s[k] != c,
    decreases s.len(),
{
    if s.len() > 0 {
        lemma_count_char_zero(s.drop_last(), c);
        assert(forall|k: int| 0 <= k < s.len() - 1 ==> s.drop_last()[k] == s[k]);
    }
}

/// A name denotes a directory exactly when its last character is `'/'`.
proof fn lemma_directory_name(n: Seq<char>)
    ensures
        is_directory_name(n) <==> n.len() > 0 && n.last() == '/',
{
    if n.len() > 0 {
        let t = n.subrange(n.len() - 1, n.len() as int);
        assert(t[0] == n.last());
        if n.last() == '/' {
            assert(t =~= slash());
        }
    }
}

/// What extraction does with an entry, by its name alone: an entry whose
/// name is not enclosed is skipped; any other entry becomes a directory when
/// its name ends with `'/'` and is written out as a file otherwise, however
/// deep it lies and whatever else its name holds.
pub proof fn lemma_entry_actions(e: ArchiveEntry)
    ensures
        spec_entry_action(e) == EntryAction::Skip <==> !e.enclosed,
        spec_entry_action(e) == EntryAction::CreateDirectory <==> e.enclosed && e.name@.len() > 0
            && e.name@.last() == '/',
        spec_entry_action(e) == EntryAction::WriteFile <==> e.enclosed && !(e.name@.len() > 0
            && e.name@.last() == '/'),
{
    lemma_directory_name(e.name@);
}

/// A name is a top-level directory exactly when it ends with `'/'` and holds
/// no other `'/'`; its other characters do not matter.
pub proof fn lemma_top_level_directory(name: Seq<char>)
    ensures
        is_top_level_directory(name) <==> {
            &&& name.len() > 0
            &&& name.last() == '/'
            &&& forall|k: int| 0 <= k < name.len() - 1 ==> name[k] != '/'
        },
{
    lemma_directory_name(name);
    if name.len() > 0 {
        let pre = name.drop_last();
        lemma_count_char_zero(pre, '/');
        assert(forall|k: int| 0 <= k < name.len() - 1 ==> pre[k] == name[k]);
    }
}

/// The entries the compressor adds for two walks one after the other are
/// those for the first walk followed by those for the second.
pub proof fn lemma_compress_items_concat(a: Seq<SourceItem>, b: Seq<SourceItem>)
    ensures
        spec_compress_items(a + b) == spec_compress_items(a) + spec_compress_items(b),
    decreases b.len(),
{
    if b.len() == 0 {
        assert(a + b =~= a);
        assert(spec_compress_items(a) + spec_compress_items(b) =~= spec_compress_items(a));
    } else {
        lemma_compress_items_concat(a, b.drop_last());
        assert((a + b).drop_last() =~= a + b.drop_last());
        assert((a + b).last() == b.last());
        let ra = spec_compress_items(a);
        let rb = spec_compress_items(b.drop_last());
        assert((ra + rb).push((b.last().relative_name@, Some(b.last().contents@))) =~= ra + rb.push(
            (b.last().relative_name@, Some(b.last().contents@))));
        assert((ra + rb).push((b.last().relative_name@, None)) =~= ra + rb.push((b.last().relative_name@, None)));
    }
}

/// What the compressor adds for one item: a file is added under its relative
/// name with all of its contents, a directory below the source directory
/// under its relative name without contents, and the source directory itself
/// (the item with the empty name that is no file) adds nothing.
pub proof fn lemma_compress_item(item: SourceItem)
    ensures
        item.is_file ==> spec_compress_items(seq![item]) == seq![(item.relative_name@, Some(item.contents@))],
        !item.is_file && item.relative_name@.len() > 0 ==> spec_compress_items(seq![item]) == seq![
            (item.relative_name@, None::<Seq<u8>>)],
        !item.is_file && item.relative_name@.len() == 0 ==> spec_compress_items(seq![item]).len() == 0,
{
    let w = seq![item];
    assert(w.drop_last() =~= Seq::<SourceItem>::empty());
    assert(spec_compress_items(w.drop_last()) == Seq::<(Seq<char>, Option<Seq<u8>>)>::empty());
    assert(Seq::<(Seq<char>, Option<Seq<u8>>)>::empty().push((item.relative_name@, Some(item.contents@)))
        =~= seq![(item.relative_name@, Some(item.contents@))]);
    assert(Seq::<(Seq<char>, Option<Seq<u8>>)>::empty().push((item.relative_name@, None::<Seq<u8>>))
        =~= seq![(item.relative_name@, None::<Seq<u8>>)]);
}

/// The name a page gets on extraction is a run of digits that reads as its
/// number, then `.png`; numbers below 10000 get exactly four digits.
pub proof fn lemma_page_file_name_reads_back(i: nat)
    ensures
        ({
            let f = spec_page_file_name(i);
            let digits = f.subrange(0, f.len() - 4);
            &&& f.len() >= 8
            &&& f.subrange(f.len() - 4, f.len() as int) == ".png"@
            &&& decimal_value(digits) == i
            &&& forall|k: int| 0 <= k < digits.len() ==> is_digit(#[trigger] digits[k])
            &&& i < 10000 ==> f.len() == 8
        }),
{
    reveal_strlit(".png");
    let p = padded_decimal(i, EXTRACTED_PAGE_WIDTH as nat);
    lemma_padded_decimal_value(i, EXTRACTED_PAGE_WIDTH as nat);
    let f = spec_page_file_name(i);
    assert(f.subrange(0, f.len() - 4) =~= p);
    assert(f.subrange(f.len() - 4, f.len() as int) =~= ".png"@);
    assert(crate::decimal::pow10(4) == 10000) by {
        reveal_with_fuel(crate::decimal::pow10, 5);
    }
}

} // verus!
