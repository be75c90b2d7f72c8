//! Which archive a requested object is, and the plan for processing it:
//! where it is downloaded, extracted and recompressed, under which name the
//! result is uploaded, and the order of the processing stages.

use vstd::prelude::*;
use vstd::string::*;
use crate::paths::{
    component_end, extension_len, file_name, file_name_bounds, is_parent_dir_name, last_dot,
    parent_dir_name, set_extension, stem_end, with_extension, with_extension_of,
};
use crate::text::{
    has_suffix, last_segment, last_segment_start, lemma_last_segment_start_append,
    lemma_last_segment_start_bounds, lemma_last_segment_start_prefix, str_ends_with,
};
use crate::transform::Transform;

verus! {

/// How many seconds the signed download URL of the source object stays valid.
pub const DOWNLOAD_URL_LIFETIME_SECS: u32 = 600;

/// How many worker threads transform the extracted images.
pub const TRANSFORM_THREADS: usize = 8;

/// The archive formats the service accepts.
#[derive(Clone, Copy, Debug, PartialEq, Eq, Structural)]
pub enum FileType {
    CBZ,
    ZIP,
    RAR,
    UNKNOWN,
}

/// A request to process one stored object.
pub struct Controller {
    pub target_file_name: String,
    pub file_type: FileType,
}

/// Which extractor unpacks an accepted archive.
#[derive(Clone, Copy, Debug, PartialEq, Eq, Structural)]
pub enum Extractor {
    /// `.zip` and `.cbz` archives.
    Zip,
    /// `.rar` archives.
    Rar,
}

/// Everything the processing of a stored object needs to know.
pub struct ProcessPlan {
    /// How the object is extracted; `None` for an object that is not an
    /// archive of a known format, which is not extracted.
    pub extractor: Option<Extractor>,
    /// Where the archive is downloaded to.
    pub save_path: String,
    /// The directory it is extracted into.
    pub extract_path: String,
    /// Where the processed images are compressed to.
    pub compress_path: String,
    /// The object name the compressed archive is uploaded under.
    pub upload_name: String,
    /// How long the signed download URL stays valid.
    pub url_lifetime_secs: u32,
    /// The transformation run over the extracted directory.
    pub transform: Transform,
}

/// The stages of processing an archive, in the order they run.
#[derive(Clone, Copy, Debug, PartialEq, Eq, Structural)]
pub enum Stage {
    Download,
    Extract,
    RemoveNotImage,
    Convert,
    Split,
    Resize,
    Rename,
    Compress,
    Upload,
    Finished,
}

pub open spec fn rar_suffix() -> Seq<char> {
    seq!['.', 'r', 'a', 'r']
}

pub open spec fn zip_suffix() -> Seq<char> {
    seq!['.', 'z', 'i', 'p']
}

pub open spec fn cbz_suffix() -> Seq<char> {
    seq!['.', 'c', 'b', 'z']
}

/// The directory archives are downloaded into.
pub open spec fn lake_dir() -> Seq<char> {
    seq!['.', '/', 'l', 'a', 'k', 'e', '/']
}

/// What is appended to the extraction directory to name the output archive.
pub open spec fn output_suffix() -> Seq<char> {
    seq!['.', 'c', 'u', 's', 't', 'o', 'm', '.', 'z', 'i', 'p']
}

/// The archive format a file name denotes, by its suffix.
pub open spec fn spec_file_type(name: Seq<char>) -> FileType {
    if has_suffix(name, rar_suffix()) {
        FileType::RAR
    } else if has_suffix(name, zip_suffix()) {
        FileType::ZIP
    } else if has_suffix(name, cbz_suffix()) {
        FileType::CBZ
    } else {
        FileType::UNKNOWN
    }
}

/// The suffix that makes a name an archive of the given format.
pub open spec fn suffix_of(t: FileType) -> Seq<char> {
    match t {
        FileType::RAR => rar_suffix(),
        FileType::ZIP => zip_suffix(),
        FileType::CBZ => cbz_suffix(),
        FileType::UNKNOWN => Seq::empty(),
    }
}

pub open spec fn spec_save_path(name: Seq<char>) -> Seq<char> {
    lake_dir() + name
}

/// The extension the output archive gets.
pub open spec fn output_extension() -> Seq<char> {
    seq!['c', 'u', 's', 't', 'o', 'm', '.', 'z', 'i', 'p']
}

/// The extraction directory: the download path without its extension.
pub open spec fn spec_extract_path(name: Seq<char>) -> Seq<char> {
    with_extension(spec_save_path(name), Seq::empty())
}

/// The output archive: the download path with its extension replaced by
/// `custom.zip`.
pub open spec fn spec_compress_path(name: Seq<char>) -> Seq<char> {
    with_extension(spec_save_path(name), output_extension())
}

/// The uploaded object's name: the file name of the output archive.
pub open spec fn spec_upload_name(name: Seq<char>) -> Seq<char> {
    file_name(spec_compress_path(name))
}

/// The output archive has a file name to be uploaded under.
pub open spec fn output_has_name(name: Seq<char>) -> bool {
    file_name(spec_compress_path(name)) != parent_dir_name()
}

pub open spec fn spec_extractor(t: FileType) -> Option<Extractor> {
    match t {
        FileType::RAR => Some(Extractor::Rar),
        FileType::UNKNOWN => None,
        _ => Some(Extractor::Zip),
    }
}

pub open spec fn spec_next_stage(s: Stage) -> Stage {
    match s {
        Stage::Download => Stage::Extract,
        Stage::Extract => Stage::RemoveNotImage,
        Stage::RemoveNotImage => Stage::Convert,
        Stage::Convert => Stage::Split,
        Stage::Split => Stage::Resize,
        Stage::Resize => Stage::Rename,
        Stage::Rename => Stage::Compress,
        Stage::Compress => Stage::Upload,
        Stage::Upload => Stage::Finished,
        Stage::Finished => Stage::Finished,
    }
}

/// The stage reached after `n` steps from `s`.
pub open spec fn stage_after(s: Stage, n: nat) -> Stage
    decreases n,
{
    if n == 0 {
        s
    } else {
        stage_after(spec_next_stage(s), (n - 1) as nat)
    }
}

impl Controller {
    /// The controller's file type is the one its file name denotes.
    pub open spec fn wf(&self) -> bool {
        self.file_type == spec_file_type(self.target_file_name@)
    }

    /// Classifies the requested object by its name: `.rar`, `.zip` and
    /// `.cbz` archives are accepted, anything else is `UNKNOWN`.
    pub fn new(target_file_name: String) -> (c: Controller)
        ensures
            c.target_file_name@ == target_file_name@,
            c.file_type == spec_file_type(target_file_name@),
            c.wf(),
    {
        proof {
            reveal_strlit(".rar");
            reveal_strlit(".zip");
            reveal_strlit(".cbz");
            assert(".rar"@ =~= rar_suffix());
            assert(".zip"@ =~= zip_suffix());
            assert(".cbz"@ =~= cbz_suffix());
        }
        let file_type = if str_ends_with(target_file_name.as_str(), ".rar") {
            FileType::RAR
        } else if str_ends_with(target_file_name.as_str(), ".zip") {
            FileType::ZIP
        } else if str_ends_with(target_file_name.as_str(), ".cbz") {
            FileType::CBZ
        } else {
            FileType::UNKNOWN
        };
        Controller { target_file_name, file_type }
    }

    /// Whether the object is an archive the service processes; a request for
    /// any other object is answered without processing.
    pub fn is_supported(&self) -> (r: bool)
        ensures
            r == (self.file_type != FileType::UNKNOWN),
    {
        match self.file_type {
            FileType::UNKNOWN => false,
            _ => true,
        }
    }

    /// The processing plan of the requested object. An object that is not an
    /// archive of a known format is not extracted, but the later stages still
    /// run over its extraction directory. The extraction directory and the
    /// output archive are the download path with its extension removed and
    /// replaced by `custom.zip` (`Path::with_extension`). `None` when the
    /// output archive has no file name (its last component is `..`), so that
    /// there is no name to upload it under.
    pub fn plan(&self) -> (r: Option<ProcessPlan>)
        ensures
            r is None <==> !output_has_name(self.target_file_name@),
            r matches Some(p) ==> {
                let name = self.target_file_name@;
                &&& p.extractor == spec_extractor(self.file_type)
                &&& p.save_path@ == spec_save_path(name)
                &&& p.extract_path@ == spec_extract_path(name)
                &&& p.compress_path@ == spec_compress_path(name)
                &&& p.upload_name@ == spec_upload_name(name)
                &&& p.url_lifetime_secs == DOWNLOAD_URL_LIFETIME_SECS
                &&& p.transform.src_dir@ == spec_extract_path(name)
                &&& p.transform.thread_pool_num == TRANSFORM_THREADS
            },
    {
        let extractor = match self.file_type {
            FileType::UNKNOWN => None,
            FileType::RAR => Some(Extractor::Rar),
            _ => Some(Extractor::Zip),
        };
        proof {
            reveal_strlit("./lake/");
            reveal_strlit(".custom.zip");
            assert("./lake/"@ =~= lake_dir());
            assert(".custom.zip"@ =~= output_suffix());
        }
        let save_path = String::from_str("./lake/").concat(self.target_file_name.as_str());
        assert(save_path@ =~= spec_save_path(self.target_file_name@));
        proof {
            reveal_strlit("");
            reveal_strlit("custom.zip");
            assert(""@ =~= Seq::<char>::empty());
            assert("custom.zip"@ =~= output_extension());
        }
        let extract_path = with_extension_of(save_path.as_str(), "");
        let compress_path = with_extension_of(save_path.as_str(), "custom.zip");
        let (start, end, _) = file_name_bounds(compress_path.as_str());
        if is_parent_dir_name(compress_path.as_str(), start, end) {
            return None;
        }
        let upload_name = String::from_str(compress_path.as_str().substring_char(start, end));
        let transform = Transform {
            src_dir: extract_path.clone(),
            thread_pool_num: TRANSFORM_THREADS,
        };
        Some(ProcessPlan {
            extractor,
            save_path,
            extract_path,
            compress_path,
            upload_name,
            url_lifetime_secs: DOWNLOAD_URL_LIFETIME_SECS,
            transform,
        })
    }
}

impl Stage {
    /// The stage processing starts with.
    pub fn first() -> (s: Stage)
        ensures
            s == Stage::Download,
    {
        Stage::Download
    }

    /// The stage that follows this one; `Finished` stays `Finished`.
    pub fn next(self) -> (s: Stage)
        ensures
            s == spec_next_stage(self),
    {
        match self {
            Stage::Download => Stage::Extract,
            Stage::Extract => Stage::RemoveNotImage,
            Stage::RemoveNotImage => Stage::Convert,
            Stage::Convert => Stage::Split,
            Stage::Split => Stage::Resize,
            Stage::Resize => Stage::Rename,
            Stage::Rename => Stage::Compress,
            Stage::Compress => Stage::Upload,
            Stage::Upload => Stage::Finished,
            Stage::Finished => Stage::Finished,
        }
    }

    /// Whether processing is over.
    pub fn is_finished(self) -> (r: bool)
        ensures
            r == (self == Stage::Finished),
    {
        match self {
            Stage::Finished => true,
            _ => false,
        }
    }
}


/// A name ends with at most one of the archive suffixes, so the file type is
/// exactly the format whose suffix the name ends with.
pub proof fn lemma_file_type_by_suffix(name: Seq<char>, t: FileType)
    requires
        t != FileType::UNKNOWN,
    ensures
        spec_file_type(name) == t <==> has_suffix(name, suffix_of(t)),
{
    let n = name.len();
    if n >= 4 {
        let tail = name.subrange(n - 4, n as int);
        assert(tail[3] == name[n - 1]);
        assert(tail[1] == name[n - 3]);
        if has_suffix(name, rar_suffix()) {
            assert(tail[3] == 'r');
        }
        if has_suffix(name, zip_suffix()) {
            assert(tail[3] == 'p');
        }
        if has_suffix(name, cbz_suffix()) {
            assert(tail[3] == 'z' && tail[1] == 'c');
        }
    }
}

/// For an archive of a known format whose file name is more than its
/// extension (and whose stem is not `.`), the extraction directory is the
/// download path without the archive suffix, the output archive replaces
/// that suffix by `.custom.zip`, and the uploaded name is the file name with
/// its suffix so replaced.
pub proof fn lemma_paths_replace_extension(name: Seq<char>)
    requires
        spec_file_type(name) != FileType::UNKNOWN,
        last_segment(spec_save_path(name)).len() > 4,
        !(last_segment(spec_save_path(name)).len() == 5 && last_segment(spec_save_path(name))[0] == '.'),
    ensures
        spec_extract_path(name) + suffix_of(spec_file_type(name)) == spec_save_path(name),
        spec_compress_path(name) == spec_extract_path(name) + output_suffix(),
        output_has_name(name),
        spec_upload_name(name) == ({
            let f = last_segment(spec_save_path(name));
            f.subrange(0, f.len() - 4) + output_suffix()
        }),
{
    let t = spec_file_type(name);
    let s = spec_save_path(name);
    let n = s.len();
    lemma_file_type_by_suffix(name, t);
    assert(s.subrange(n - 4, n as int) =~= name.subrange(name.len() - 4, name.len() as int));
    assert(s[n - 4] == '.');
    assert(s[n - 1] != '/' && s[n - 1] != '.');
    assert(s[n - 2] != '/' && s[n - 2] != '.');
    assert(s[n - 3] != '/' && s[n - 3] != '.');
    // the path's own file name
    assert(component_end(s) == n);
    assert(s.subrange(0, n as int) =~= s);
    let st = last_segment_start(s);
    lemma_last_segment_start_bounds(s);
    let f = file_name(s);
    assert(f =~= last_segment(s));
    assert(st + 5 <= n);
    assert(f.len() == n - st);
    assert(f != parent_dir_name());
    reveal_with_fuel(last_dot, 4);
    assert(f.drop_last().drop_last().drop_last().last() == '.');
    assert(last_dot(f) == Some((f.len() - 4) as nat));
    assert(extension_len(s) == Some(3nat));
    // the path without the extension's letters ends with the dot
    let base = s.subrange(0, n - 3);
    assert(base.last() == '.');
    assert(base[base.len() - 2] == s[n - 5]);
    assert(s[n - 5] != '/');
    assert(component_end(base) == base.len());
    assert(base.subrange(0, base.len() as int) =~= base);
    lemma_last_segment_start_prefix(s, n - 3);
    assert(last_segment_start(base) == st);
    let g = file_name(base);
    assert(g =~= f.subrange(0, f.len() - 3));
    assert(g.len() >= 2);
    assert(g != parent_dir_name()) by {
        if g == parent_dir_name() {
            assert(g[0] == f[0]);
        }
    }
    assert(last_dot(g) == Some((g.len() - 1) as nat));
    assert(stem_end(base) == n - 4);
    let e = s.subrange(0, n - 4);
    assert(set_extension(base, Seq::empty()) =~= e);
    assert(spec_extract_path(name) == e);
    assert(e + suffix_of(t) =~= s);
    let c = e + (seq!['.'] + output_extension());
    assert(set_extension(base, output_extension()) =~= c);
    assert(c =~= e + output_suffix());
    // the output archive's file name
    assert(c.last() == 'p');
    assert(component_end(c) == c.len());
    assert(c.subrange(0, c.len() as int) =~= c);
    lemma_last_segment_start_prefix(s, n - 4);
    assert(forall|i: int| 0 <= i < output_suffix().len() ==> output_suffix()[i] != '/');
    lemma_last_segment_start_append(e, output_suffix());
    assert(last_segment_start(c) == st);
    assert(file_name(c) =~= f.subrange(0, f.len() - 4) + output_suffix());
    assert(file_name(c)[file_name(c).len() - 1] == 'p');
}

/// The download path of an archive of a known format ends with that format's
/// suffix, and its final segment holds at least the suffix.
proof fn lemma_save_path_shape(name: Seq<char>)
    requires
        spec_file_type(name) != FileType::UNKNOWN,
    ensures
        ({
            let s = spec_save_path(name);
            let n = s.len();
            let st = last_segment_start(s);
            &&& n >= 11
            &&& s.subrange(n - 4, n as int) == suffix_of(spec_file_type(name))
            &&& s[n - 4] == '.'
            &&& forall|k: int| n - 3 <= k < n ==> s[k] != '/' && s[k] != '.'
            &&& 0 < st <= n - 4
            &&& s[st - 1] == '/'
            &&& forall|k: int| st <= k < n ==> s[k] != '/'
            &&& component_end(s) == n
            &&& last_segment(s).len() >= 4
        }),
{
    let t = spec_file_type(name);
    let s = spec_save_path(name);
    let n = s.len();
    lemma_file_type_by_suffix(name, t);
    assert(s.subrange(n - 4, n as int) =~= name.subrange(name.len() - 4, name.len() as int));
    assert(s[n - 4] == '.');
    assert(s[n - 1] != '/' && s[n - 1] != '.');
    assert(s[n - 2] != '/' && s[n - 2] != '.');
    assert(s[n - 3] != '/' && s[n - 3] != '.');
    assert(s[6] == '/');
    lemma_last_segment_start_bounds(s);
    assert(component_end(s) == n);
}

/// A download whose file name is just the suffix (`.zip`) keeps it as the
/// name's stem, and the output archive is that path followed by `.custom.zip`.
proof fn lemma_bare_suffix_has_output(name: Seq<char>)
    requires
        spec_file_type(name) != FileType::UNKNOWN,
        last_segment(spec_save_path(name)).len() == 4,
    ensures
        spec_compress_path(name) == spec_save_path(name) + output_suffix(),
        output_has_name(name),
{
    let s = spec_save_path(name);
    let n = s.len();
    lemma_save_path_shape(name);
    let st = last_segment_start(s);
    assert(st == n - 4);
    assert(s.subrange(0, n as int) =~= s);
    let f = file_name(s);
    assert(f =~= s.subrange(n - 4, n as int));
    reveal_with_fuel(last_dot, 4);
    assert(f.drop_last().drop_last().drop_last().last() == '.');
    assert(last_dot(f) == Some(0nat));
    assert(extension_len(s) is None);
    assert(f != parent_dir_name());
    assert(stem_end(s) == n);
    let c = s + output_suffix();
    assert(set_extension(s, output_extension()) =~= c);
    assert(c.last() == 'p');
    assert(component_end(c) == c.len());
    assert(c.subrange(0, c.len() as int) =~= c);
    assert(forall|i: int| 0 <= i < output_suffix().len() ==> output_suffix()[i] != '/');
    lemma_last_segment_start_append(s, output_suffix());
    assert(file_name(c).len() == 15);
}

/// A download whose file name is `.` followed by the suffix (`..zip`) has
/// `..` left once the extension is taken off: the output archive has no file
/// name.
proof fn lemma_dot_stem_has_no_output(name: Seq<char>)
    requires
        spec_file_type(name) != FileType::UNKNOWN,
        last_segment(spec_save_path(name)) == seq!['.'] + suffix_of(spec_file_type(name)),
    ensures
        !output_has_name(name),
{
    let s = spec_save_path(name);
    let n = s.len();
    lemma_save_path_shape(name);
    let st = last_segment_start(s);
    assert(last_segment(s).len() == 5);
    assert(st == n - 5);
    assert(s[n - 5] == last_segment(s)[0]);
    assert(s.subrange(0, n as int) =~= s);
    let f = file_name(s);
    assert(f =~= last_segment(s));
    reveal_with_fuel(last_dot, 4);
    assert(f.drop_last().drop_last().drop_last().last() == '.');
    assert(last_dot(f) == Some(1nat));
    assert(f != parent_dir_name());
    assert(extension_len(s) == Some(3nat));
    let base = s.subrange(0, n - 3);
    assert(base.last() == '.' && base[base.len() - 2] == '.');
    assert(component_end(base) == base.len());
    assert(base.subrange(0, base.len() as int) =~= base);
    lemma_last_segment_start_prefix(s, n - 3);
    assert(file_name(base) =~= parent_dir_name());
    assert(spec_compress_path(name) == base);
}

/// Every request for an archive of a known format has an output archive
/// with a file name to upload it under, except a download whose file name is
/// `.` followed by the format's suffix (such as `..zip`).
pub proof fn lemma_supported_names_have_output(name: Seq<char>)
    requires
        spec_file_type(name) != FileType::UNKNOWN,
    ensures
        output_has_name(name) <==> last_segment(spec_save_path(name)) != seq!['.'] + suffix_of(spec_file_type(name)),
{
    let f = last_segment(spec_save_path(name));
    let dotted = seq!['.'] + suffix_of(spec_file_type(name));
    lemma_save_path_shape(name);
    if f.len() == 4 {
        lemma_bare_suffix_has_output(name);
        assert(f.len() != dotted.len());
    } else if f.len() == 5 && f[0] == '.' {
        let s = spec_save_path(name);
        let n = s.len();
        assert(f =~= s.subrange(n - 5, n as int));
        assert(f =~= dotted);
        lemma_dot_stem_has_no_output(name);
    } else {
        lemma_paths_replace_extension(name);
        if f == dotted {
            assert(f[0] == '.');
        }
    }
}

/// Processing runs the nine stages from download to upload, one per step,
/// and then stays finished.
pub proof fn lemma_stages_run_in_order()
    ensures
        stage_after(Stage::Download, 9) == Stage::Finished,
        forall|k: nat| k < 9 ==> stage_after(Stage::Download, k) != Stage::Finished,
        spec_next_stage(Stage::Finished) == Stage::Finished,
{
    reveal_with_fuel(stage_after, 10);
    assert forall|k: nat| k < 9 implies stage_after(Stage::Download, k) != Stage::Finished by {
        reveal_with_fuel(stage_after, 10);
    }
}

/// The last four characters of a name, or the whole name when shorter.
pub open spec fn last_four(name: Seq<char>) -> Seq<char> {
    if name.len() >= 4 { name.subrange(name.len() - 4, name.len() as int) } else { name }
}

/// A name is a RAR archive when it ends with `.rar`, a ZIP archive when it
/// ends with `.zip`, a CBZ archive when it ends with `.cbz`, and of no
/// supported format otherwise.
pub proof fn lemma_file_type_by_name(name: Seq<char>)
    ensures
        spec_file_type(name) == FileType::RAR <==> last_four(name) == ".rar"@,
        spec_file_type(name) == FileType::ZIP <==> last_four(name) == ".zip"@,
        spec_file_type(name) == FileType::CBZ <==> last_four(name) == ".cbz"@,
        spec_file_type(name) == FileType::UNKNOWN <==> !(last_four(name) == ".rar"@ || last_four(name)
            == ".zip"@ || last_four(name) == ".cbz"@),
{
    reveal_strlit(".rar");
    reveal_strlit(".zip");
    reveal_strlit(".cbz");
    assert(".rar"@ =~= rar_suffix());
    assert(".zip"@ =~= zip_suffix());
    assert(".cbz"@ =~= cbz_suffix());
    lemma_file_type_by_suffix(name, FileType::RAR);
    lemma_file_type_by_suffix(name, FileType::ZIP);
    lemma_file_type_by_suffix(name, FileType::CBZ);
    if name.len() < 4 {
        assert(last_four(name).len() < 4);
    }
}

/// Archives are downloaded under `./lake/`, and the output archive is named
/// by the extraction directory followed by `.custom.zip`.
pub proof fn lemma_plan_names()
    ensures
        lake_dir() == "./lake/"@,
        output_suffix() == ".custom.zip"@,
        output_suffix() == seq!['.'] + output_extension(),
        output_extension() == "custom.zip"@,
{
    reveal_strlit("./lake/");
    reveal_strlit(".custom.zip");
    reveal_strlit("custom.zip");
    assert(lake_dir() =~= "./lake/"@);
    assert(output_suffix() =~= ".custom.zip"@);
    assert(output_suffix() =~= seq!['.'] + output_extension());
    assert(output_extension() =~= "custom.zip"@);
}

} // verus!
