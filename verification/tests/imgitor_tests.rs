use imgitor::archive::{
    compress_action, entry_action, extraction_plan, extraction_root, is_directory_entry,
    is_top_level_directory_entry, page_file_name, ArchiveEntry, CompressAction, EntryAction,
    compress_archive, SourceItem, ARCHIVE_PERMISSIONS,
};
use std::io::Write;
use std::path::Path;
use imgitor::command::{
    rar_extract_args, seven_zip_compress_args, seven_zip_extract_args, seven_zip_program,
};
use imgitor::controller::{Controller, Extractor, FileType, Stage};
use imgitor::decimal::{decimal_string, padded_decimal_string};
use imgitor::downloader::{alert_action, AlertAction, AlertKind};
use imgitor::route::rocket;
use imgitor::text::{count_char_in, last_segment_start_of, str_ends_with};
use imgitor::transform::{Crop, Transform, WalkEntry};

#[test]
fn test_compress() {
    assert_eq!(1, 1);
}

// ---- file type and processing plan ----

#[test]
fn controller_classifies_by_suffix() {
    assert_eq!(Controller::new(String::from("a.rar")).file_type, FileType::RAR);
    assert_eq!(Controller::new(String::from("a.zip")).file_type, FileType::ZIP);
    assert_eq!(Controller::new(String::from("a.cbz")).file_type, FileType::CBZ);
    assert_eq!(Controller::new(String::from("a.7z")).file_type, FileType::UNKNOWN);
    assert_eq!(Controller::new(String::from("zip")).file_type, FileType::UNKNOWN);
    assert_eq!(Controller::new(String::from("")).file_type, FileType::UNKNOWN);
    assert_eq!(Controller::new(String::from("a.ZIP")).file_type, FileType::UNKNOWN);
    assert_eq!(Controller::new(String::from(".zip")).file_type, FileType::ZIP);
    assert_eq!(Controller::new(String::from("b.zip.rar")).file_type, FileType::RAR);
    let c = Controller::new(String::from("漫画.cbz"));
    assert_eq!(c.file_type, FileType::CBZ);
    assert_eq!(c.target_file_name, "漫画.cbz");
}

#[test]
fn controller_supported() {
    assert!(Controller::new(String::from("x.zip")).is_supported());
    assert!(!Controller::new(String::from("x.txt")).is_supported());
}

#[test]
fn plan_for_zip_archive() {
    let p = Controller::new(String::from("book.zip")).plan().unwrap();
    assert_eq!(p.extractor, Some(Extractor::Zip));
    assert_eq!(p.save_path, "./lake/book.zip");
    assert_eq!(p.extract_path, "./lake/book");
    assert_eq!(p.compress_path, "./lake/book.custom.zip");
    assert_eq!(p.upload_name, "book.custom.zip");
    assert_eq!(p.url_lifetime_secs, 600);
    assert_eq!(p.transform.src_dir, "./lake/book");
    assert_eq!(p.transform.thread_pool_num, 8);
}

#[test]
fn plan_for_rar_and_cbz_archives() {
    let p = Controller::new(String::from("vol.1.rar")).plan().unwrap();
    assert_eq!(p.extractor, Some(Extractor::Rar));
    assert_eq!(p.extract_path, "./lake/vol.1");
    assert_eq!(p.upload_name, "vol.1.custom.zip");
    let q = Controller::new(String::from("dir/sub/c.cbz")).plan().unwrap();
    assert_eq!(q.extractor, Some(Extractor::Zip));
    assert_eq!(q.save_path, "./lake/dir/sub/c.cbz");
    assert_eq!(q.compress_path, "./lake/dir/sub/c.custom.zip");
    assert_eq!(q.upload_name, "c.custom.zip");
}

#[test]
fn plan_for_dot_file_archive_keeps_name() {
    let p = Controller::new(String::from(".zip")).plan().unwrap();
    assert_eq!(p.extract_path, "./lake/.zip");
    assert_eq!(p.compress_path, "./lake/.zip.custom.zip");
    assert_eq!(p.upload_name, ".zip.custom.zip");
    let q = Controller::new(String::from("d/.rar")).plan().unwrap();
    assert_eq!(q.extract_path, "./lake/d/.rar");
    assert_eq!(q.upload_name, ".rar.custom.zip");
}

#[test]
fn plan_for_unknown_object_skips_extraction() {
    let p = Controller::new(String::from("notes.txt")).plan().unwrap();
    assert_eq!(p.extractor, None);
    assert_eq!(p.save_path, "./lake/notes.txt");
    assert_eq!(p.extract_path, "./lake/notes");
    assert_eq!(p.compress_path, "./lake/notes.custom.zip");
    assert_eq!(p.upload_name, "notes.custom.zip");
    let q = Controller::new(String::from("README")).plan().unwrap();
    assert_eq!(q.extract_path, "./lake/README");
    assert_eq!(q.upload_name, "README.custom.zip");
}

#[test]
fn plan_without_file_name() {
    assert!(Controller::new(String::from("..")).plan().is_none());
    assert!(Controller::new(String::from("a/../")).plan().is_none());
}

#[test]
fn plan_paths_match_std_path() {
    let names = [
        "book.zip", "vol.1.rar", "dir/sub/c.cbz", ".zip", "d/.rar", "notes.txt", "README", "a/", "a/.",
        "a/./", "", ".", ".hidden", "a.", "..zip", "...", "x//y.tar.gz", "a/b/", "漫画.cbz", "..", "b/..",
        "a.zip/", "a.b/.", "x.y/./", "..a/", ".../", "..zip", "d/..rar", "a.tar.gz/", ".a.b", "x/.z.",
        "a.é/", "a.éé/./", "..é/", "é.zip", "x/.cbz",
    ];
    for name in names {
        let save = format!("./lake/{}", name);
        let path = Path::new(&save);
        let compress = path.with_extension("custom.zip");
        match Controller::new(String::from(name)).plan() {
            None => {
                assert!(compress.file_name().is_none(), "{}", name);
            }
            Some(p) => {
                assert_eq!(p.save_path, save);
                assert_eq!(p.extract_path, path.with_extension("").to_str().unwrap(), "{}", name);
                assert_eq!(p.compress_path, compress.to_str().unwrap(), "{}", name);
                assert_eq!(p.upload_name, compress.file_name().unwrap().to_str().unwrap(), "{}", name);
            }
        }
    }
}

#[test]
fn supported_names_have_an_output_but_dot_stems() {
    let bare = Controller::new(String::from(".zip")).plan().unwrap();
    assert_eq!(bare.compress_path, "./lake/.zip.custom.zip");
    assert_eq!(bare.upload_name, ".zip.custom.zip");
    assert!(Controller::new(String::from("...zip")).plan().is_some());
    assert!(Controller::new(String::from("x/.cbz")).plan().is_some());
    assert!(Controller::new(String::from("..zip")).plan().is_none());
    assert!(Controller::new(String::from("d/..rar")).plan().is_none());
    assert!(Controller::new(String::from("..cbz")).plan().is_none());
}

#[test]
fn stages_run_in_order() {
    let mut s = Stage::first();
    let mut seen = Vec::new();
    while !s.is_finished() {
        seen.push(s);
        s = s.next();
    }
    assert_eq!(
        seen,
        vec![
            Stage::Download,
            Stage::Extract,
            Stage::RemoveNotImage,
            Stage::Convert,
            Stage::Split,
            Stage::Resize,
            Stage::Rename,
            Stage::Compress,
            Stage::Upload
        ]
    );
    assert_eq!(Stage::Finished.next(), Stage::Finished);
}

// ---- decimal ----

#[test]
fn decimal_rendering() {
    assert_eq!(decimal_string(0), "0");
    assert_eq!(decimal_string(9), "9");
    assert_eq!(decimal_string(10), "10");
    assert_eq!(decimal_string(907), "907");
    assert_eq!(decimal_string(u64::MAX), u64::MAX.to_string());
}

#[test]
fn padded_rendering_matches_format() {
    for n in [0u64, 1, 7, 42, 99, 100, 999, 1000, 12345] {
        assert_eq!(padded_decimal_string(n, 3), format!("{:03}", n));
        assert_eq!(padded_decimal_string(n, 4), format!("{:04}", n));
    }
    assert_eq!(padded_decimal_string(5, 0), "5");
}

#[test]
fn padded_rendering_is_injective_on_samples() {
    let names: Vec<String> = (0u64..1200).map(|n| padded_decimal_string(n, 3)).collect();
    let mut sorted = names.clone();
    sorted.sort();
    sorted.dedup();
    assert_eq!(sorted.len(), names.len());
}

// ---- text helpers ----

#[test]
fn text_helpers() {
    assert!(str_ends_with("abc", "bc"));
    assert!(str_ends_with("abc", ""));
    assert!(!str_ends_with("bc", "abc"));
    assert!(!str_ends_with("abd", "bc"));
    assert_eq!(count_char_in("a/b/c/", '/'), 3);
    assert_eq!(count_char_in("", '/'), 0);
    assert_eq!(last_segment_start_of("a/bc"), 2);
    assert_eq!(last_segment_start_of("abc"), 0);
    assert_eq!(last_segment_start_of("abc/"), 4);
}

// ---- transform naming and geometry ----

#[test]
fn converted_path_appends_webp() {
    assert_eq!(
        Transform::converted_path("./samples/transform_convert/rust-social-wide.jpeg"),
        "./samples/transform_convert/rust-social-wide.jpeg.webp"
    );
}

#[test]
fn resized_path_appends_resize_webp() {
    assert_eq!(
        Transform::resized_path("./samples/transform_resize/rust-social-wide.webp"),
        "./samples/transform_resize/rust-social-wide.webp.resize.webp"
    );
}

#[test]
fn split_plan_of_landscape_image() {
    let p = Transform::split_plan("./samples/transform_split/rust-social-wide.webp", 1280, 640).unwrap();
    assert_eq!(p.left_path, "./samples/transform_split/rust-social-wide.webp.split.left.webp");
    assert_eq!(p.right_path, "./samples/transform_split/rust-social-wide.webp.split.right.webp");
    assert_eq!(p.left, Crop { x: 0, y: 0, width: 640, height: 640 });
    assert_eq!(p.right, Crop { x: 640, y: 0, width: 640, height: 640 });
}

#[test]
fn split_plan_odd_width_drops_last_column() {
    let p = Transform::split_plan("a.png", 1001, 10).unwrap();
    assert_eq!(p.left, Crop { x: 0, y: 0, width: 500, height: 10 });
    assert_eq!(p.right, Crop { x: 500, y: 0, width: 500, height: 10 });
    assert_eq!(p.right.x + p.right.width + 1, 1001);
}

#[test]
fn split_plan_keeps_portrait_and_square_images() {
    assert!(Transform::split_plan("a.png", 640, 1280).is_none());
    assert!(Transform::split_plan("a.png", 640, 640).is_none());
    assert!(Transform::split_plan("a.png", 0, 0).is_none());
}

#[test]
fn resize_target_values() {
    assert_eq!(Transform::resize_target(1000, 1000), Some((900, 900)));
    assert_eq!(Transform::resize_target(1000, 500), None);
    assert_eq!(Transform::resize_target(500_000, 1), None);
    assert_eq!(Transform::resize_target(500_001, 1), Some((450_001, 1)));
    assert_eq!(Transform::resize_target(1001, 500), Some((901, 450)));
    // 0.9 * 15 = 13.5 rounds up; 0.9 * 25 = 22.5 rounds up
    assert_eq!(Transform::resize_target(100_000, 15), Some((90_000, 14)));
    assert_eq!(Transform::resize_target(100_000, 25), Some((90_000, 23)));
}

#[test]
fn resize_target_matches_float_rounding() {
    for w in (1u32..3000).step_by(7) {
        let h = 600u32;
        if let Some((nw, nh)) = Transform::resize_target(w, h) {
            assert_eq!(nw, ((w as f64) * 0.9).round() as u32);
            assert_eq!(nh, ((h as f64) * 0.9).round() as u32);
        } else {
            assert!(w * h <= 500_000);
        }
    }
}

#[test]
fn resize_loop_terminates_on_exact_targets() {
    let (mut w, mut h) = (7000u32, 5000u32);
    let mut passes = 0;
    while let Some((nw, nh)) = Transform::resize_target(w, h) {
        assert!(nw * nh < w * h);
        w = nw;
        h = nh;
        passes += 1;
    }
    assert!(w * h <= 500_000);
    assert!(passes > 0);
}

fn file(ext: &str) -> WalkEntry {
    WalkEntry::File { extension: Some(String::from(ext)) }
}

#[test]
fn file_jobs_are_the_files() {
    let entries = vec![WalkEntry::Other, file("jpg"), WalkEntry::Unreadable, file("png"), WalkEntry::Other];
    assert_eq!(Transform::file_jobs(&entries), vec![1, 3]);
    assert_eq!(Transform::file_jobs(&Vec::new()).len(), 0);
}

#[test]
fn numbered_names() {
    assert_eq!(Transform::numbered_name(1, "webp"), "001.webp");
    assert_eq!(Transform::numbered_name(42, "png"), "042.png");
    assert_eq!(Transform::numbered_name(1000, "webp"), "1000.webp");
    assert_eq!(Transform::numbered_name(7, ""), "007.");
}

#[test]
fn rename_targets_number_files_in_walk_order() {
    let entries = vec![WalkEntry::Other, file("webp"), file("webp"), WalkEntry::Other, file("png")];
    let t = Transform::rename_targets(&entries);
    assert_eq!(
        t,
        vec![
            None,
            Some(String::from("001.webp")),
            Some(String::from("002.webp")),
            None,
            Some(String::from("003.png"))
        ]
    );
}

#[test]
fn rename_targets_are_distinct() {
    let entries: Vec<WalkEntry> = (0..1500).map(|i| if i % 3 == 0 { WalkEntry::Other } else { file("webp") }).collect();
    let mut names: Vec<String> = Transform::rename_targets(&entries).into_iter().flatten().collect();
    let n = names.len();
    names.sort();
    names.dedup();
    assert_eq!(names.len(), n);
}

#[test]
fn renamed_pages_sort_in_walk_order() {
    let entries: Vec<WalkEntry> = (0..1200)
        .map(|i| match i % 4 {
            0 => WalkEntry::Other,
            1 => file("webp"),
            2 => file("png"),
            _ => file("jpg"),
        })
        .collect();
    let names: Vec<String> = Transform::rename_targets(&entries).into_iter().flatten().collect();
    assert_eq!(names.len(), 900);
    let mut sorted = names.clone();
    sorted.sort();
    assert_eq!(sorted, names);
}

// ---- archive extraction and compression ----

fn entry(name: &str, enclosed: bool) -> ArchiveEntry {
    ArchiveEntry { name: String::from(name), enclosed, unix_mode: None, contents: None }
}

#[test]
fn directory_names() {
    assert!(is_directory_entry("a/"));
    assert!(!is_directory_entry("a/b.png"));
    assert!(is_top_level_directory_entry("a/"));
    assert!(is_top_level_directory_entry("/"));
    assert!(!is_top_level_directory_entry("a/b/"));
    assert!(!is_top_level_directory_entry("a"));
}

#[test]
fn entry_actions() {
    assert_eq!(entry_action(&entry("../evil", false)), EntryAction::Skip);
    assert_eq!(entry_action(&entry("dir/", true)), EntryAction::CreateDirectory);
    assert_eq!(entry_action(&entry("dir/p.png", true)), EntryAction::WriteFile);
}

#[test]
fn extraction_root_is_last_top_level_directory() {
    let entries = vec![
        entry("a/", true),
        entry("a/1.png", true),
        entry("b/c/", true),
        entry("b/", true),
        entry("b/2.png", true),
        entry("x/", false),
    ];
    assert_eq!(extraction_root(&entries), Some(3));
    assert_eq!(extraction_root(&vec![entry("1.png", true)]), None);
    assert_eq!(extraction_root(&Vec::new()), None);
}

fn zip_bytes(files: &[(&str, &[u8])]) -> Vec<u8> {
    let mut w = zip::ZipWriter::new(std::io::Cursor::new(Vec::new()));
    let options = zip::write::FileOptions::default().compression_method(zip::CompressionMethod::Stored);
    for (name, data) in files {
        if name.ends_with('/') {
            w.add_directory(*name, options).unwrap();
        } else {
            w.start_file(*name, options).unwrap();
            w.write_all(data).unwrap();
        }
    }
    w.finish().unwrap().into_inner()
}

#[test]
fn extraction_plan_of_archive() {
    let data = zip_bytes(&[
        ("book/", b""),
        ("book/01.png", b"png-bytes"),
        ("../evil.png", b"x"),
        ("book/notes/", b""),
    ]);
    let plan = extraction_plan(&data).unwrap();
    let names: Vec<&str> = plan.entries.iter().map(|e| e.name.as_str()).collect();
    assert_eq!(names, vec!["book/", "book/01.png", "../evil.png", "book/notes/"]);
    assert_eq!(plan.entries[1].contents, Some(b"png-bytes".to_vec()));
    assert_eq!(plan.entries[0].contents, None);
    assert_eq!(plan.entries[2].contents, None);
    assert!(!plan.entries[2].enclosed);
    assert!(plan.complete);
    assert_eq!(
        plan.actions,
        vec![EntryAction::CreateDirectory, EntryAction::WriteFile, EntryAction::Skip, EntryAction::CreateDirectory]
    );
    assert_eq!(plan.root, Some(0));
}

/// The offsets at which local file headers start.
fn local_headers(data: &[u8]) -> Vec<usize> {
    (0..data.len().saturating_sub(3)).filter(|&i| data[i..i + 4] == [0x50, 0x4b, 0x03, 0x04]).collect()
}

#[test]
fn extraction_plan_stops_at_an_entry_that_cannot_be_opened() {
    let mut data = zip_bytes(&[("a/", b""), ("a/1.png", b"one"), ("a/2.png", b"two")]);
    let third = local_headers(&data)[2];
    data[third] = b'X';
    let plan = extraction_plan(&data).unwrap();
    assert!(!plan.complete);
    assert_eq!(plan.entries.len(), 2);
    assert_eq!(plan.actions, vec![EntryAction::CreateDirectory, EntryAction::WriteFile]);
    assert_eq!(plan.entries[1].contents, Some(b"one".to_vec()));
    assert_eq!(plan.root, Some(0));
}

#[test]
fn extraction_plan_keeps_unreadable_file_contents_apart() {
    let mut data = zip_bytes(&[("a/1.png", b"one"), ("a/2.png", b"two")]);
    let second = local_headers(&data)[1];
    // the first byte of the second entry's data, behind its 30-byte header and 7-byte name
    data[second + 30 + 7] ^= 0xff;
    let plan = extraction_plan(&data).unwrap();
    assert!(plan.complete);
    assert_eq!(plan.entries.len(), 2);
    assert_eq!(plan.entries[0].contents, Some(b"one".to_vec()));
    assert_eq!(plan.entries[1].name, "a/2.png");
    assert_eq!(plan.entries[1].contents, None);
    assert_eq!(plan.root, None);
}

fn source(name: &str, is_file: bool, contents: &[u8]) -> SourceItem {
    SourceItem { relative_name: String::from(name), is_file, contents: contents.to_vec() }
}

#[test]
fn compressed_archive_holds_the_walked_tree() {
    let walk = vec![
        source("", false, b""),
        source("book", false, b""),
        source("book/0001.webp", true, b"first page"),
        source("book/0002.webp", true, b""),
        source("top.txt", true, b"top"),
    ];
    let data = compress_archive(&walk).unwrap();
    let plan = extraction_plan(&data).unwrap();
    assert!(plan.complete);
    let names: Vec<&str> = plan.entries.iter().map(|e| e.name.as_str()).collect();
    assert_eq!(names, vec!["book/", "book/0001.webp", "book/0002.webp", "top.txt"]);
    assert_eq!(
        plan.actions,
        vec![EntryAction::CreateDirectory, EntryAction::WriteFile, EntryAction::WriteFile, EntryAction::WriteFile]
    );
    assert_eq!(plan.entries[1].contents, Some(b"first page".to_vec()));
    assert_eq!(plan.entries[2].contents, Some(Vec::new()));
    assert_eq!(plan.entries[3].contents, Some(b"top".to_vec()));
    assert_eq!(plan.entries[0].unix_mode, Some(0o40755));
    assert_eq!(plan.entries[1].unix_mode, Some(0o100755));
    assert_eq!(plan.root, Some(0));
    assert_eq!(ARCHIVE_PERMISSIONS, 0o755);
}

#[test]
fn compressed_archive_stores_entries() {
    let walk = vec![source("a.png", true, b"aaaaaaaaaaaaaaaaaaaaaaaaaaaaaaaaaaaaaaaa")];
    let data = compress_archive(&walk).unwrap();
    let mut archive = zip::ZipArchive::new(std::io::Cursor::new(&data)).unwrap();
    let file = archive.by_index(0).unwrap();
    assert_eq!(file.compression(), zip::CompressionMethod::Stored);
    assert_eq!(file.compressed_size(), 40);
}

#[test]
fn compressed_archive_of_nothing() {
    let data = compress_archive(&vec![source("", false, b"")]).unwrap();
    let plan = extraction_plan(&data).unwrap();
    assert!(plan.complete);
    assert!(plan.entries.is_empty());
    assert_eq!(plan.root, None);
}

#[test]
fn extraction_plan_of_garbage() {
    assert!(extraction_plan(b"not a zip archive").is_none());
    assert!(extraction_plan(&[]).is_none());
}

#[test]
fn page_files_by_extension() {
    assert!(Transform::is_page_file(Some("jpg")));
    assert!(Transform::is_page_file(Some("JPEG")));
    assert!(Transform::is_page_file(Some("Png")));
    assert!(Transform::is_page_file(Some("webp")));
    assert!(!Transform::is_page_file(Some("txt")));
    assert!(!Transform::is_page_file(Some("gif")));
    assert!(!Transform::is_page_file(Some("jpgx")));
    assert!(!Transform::is_page_file(Some("")));
    assert!(!Transform::is_page_file(None));
}

#[test]
fn page_names_on_extraction() {
    assert_eq!(page_file_name(0), "0000.png");
    assert_eq!(page_file_name(12), "0012.png");
    assert_eq!(page_file_name(12345), "12345.png");
}

#[test]
fn page_names_on_extraction_are_distinct() {
    let mut names: Vec<String> = (0u64..20000).map(page_file_name).collect();
    names.sort();
    names.dedup();
    assert_eq!(names.len(), 20000);
}

#[test]
fn compress_actions() {
    assert_eq!(compress_action(true, false), CompressAction::AddFile);
    assert_eq!(compress_action(false, false), CompressAction::AddDirectory);
    assert_eq!(compress_action(false, true), CompressAction::Skip);
}

// ---- archiver command lines ----

#[test]
fn archiver_command_lines() {
    assert_eq!(seven_zip_program(), "7z");
    assert_eq!(
        seven_zip_extract_args("./lake/a.rar", "./lake/a"),
        vec!["x", "-o./lake/a", "./lake/a.rar", "-aoa"]
    );
    assert_eq!(
        seven_zip_compress_args("./lake/a", "./lake/a.custom.zip"),
        vec!["a", "-sdel", "./lake/a.custom.zip", "./lake/a/*", "-mx9"]
    );
    assert_eq!(rar_extract_args("./lake/a.rar"), vec!["x", "-o./lake/", "./lake/a.rar"]);
}

// ---- web interface and downloader ----

#[test]
fn route_table() {
    let r = rocket();
    assert_eq!(r.base, "/");
    assert_eq!(r.query_param, "n");
    assert_eq!(r.response, "Finished!");
}

#[test]
fn downloader_reactions() {
    assert_eq!(alert_action(AlertKind::TorrentStats), AlertAction::ReportStats);
    assert_eq!(alert_action(AlertKind::TorrentComplete), AlertAction::Shutdown);
    assert_eq!(alert_action(AlertKind::Error), AlertAction::ReportError);
    assert_eq!(alert_action(AlertKind::Other), AlertAction::Ignore);
}
