//! The command lines that drive the external `7z` archiver.

use vstd::prelude::*;
use vstd::string::*;

verus! {

/// The arguments of a command, as character sequences.
pub open spec fn arg_views(args: Seq<String>) -> Seq<Seq<char>> {
    args.map_values(|a: String| a@)
}

pub open spec fn spec_seven_zip_program() -> Seq<char> {
    seq!['7', 'z']
}

/// `7z x -o<dest> <archive> -aoa`: extract with full paths into `dest`,
/// overwriting existing files without asking.
pub open spec fn spec_extract_args(archive: Seq<char>, dest: Seq<char>) -> Seq<Seq<char>> {
    seq![seq!['x'], seq!['-', 'o'] + dest, archive, seq!['-', 'a', 'o', 'a']]
}

/// `7z a -sdel <dest> <src_dir>/* -mx9`: add everything under `src_dir` to
/// `dest` with maximum compression, deleting the files once archived.
pub open spec fn spec_compress_args(src_dir: Seq<char>, dest: Seq<char>) -> Seq<Seq<char>> {
    seq![
        seq!['a'],
        seq!['-', 's', 'd', 'e', 'l'],
        dest,
        src_dir + seq!['/', '*'],
        seq!['-', 'm', 'x', '9'],
    ]
}

/// `7z x -o./lake/ <archive>`: extract a RAR archive into the download
/// directory.
pub open spec fn spec_rar_extract_args(archive: Seq<char>) -> Seq<Seq<char>> {
    seq![seq!['x'], seq!['-', 'o', '.', '/', 'l', 'a', 'k', 'e', '/'], archive]
}

fn literal(s: &str) -> (r: String)
    ensures
        r@ == s@,
{
    String::from_str(s)
}

/// The archiver program that is run.
pub fn seven_zip_program() -> (r: String)
    ensures
        r@ == spec_seven_zip_program(),
{
    proof {
        reveal_strlit("7z");
        assert("7z"@ =~= spec_seven_zip_program());
    }
    literal("7z")
}

/// The arguments that extract `archive` into the directory `dest`.
pub fn seven_zip_extract_args(archive: &str, dest: &str) -> (r: Vec<String>)
    ensures
        arg_views(r@) == spec_extract_args(archive@, dest@),
{
    proof {
        reveal_strlit("x");
        reveal_strlit("-o");
        reveal_strlit("-aoa");
        assert("x"@ =~= seq!['x']);
        assert("-o"@ =~= seq!['-', 'o']);
        assert("-aoa"@ =~= seq!['-', 'a', 'o', 'a']);
    }
    let mut r: Vec<String> = Vec::new();
    r.push(literal("x"));
    r.push(literal("-o").concat(dest));
    r.push(literal(archive));
    r.push(literal("-aoa"));
    assert(arg_views(r@) =~= spec_extract_args(archive@, dest@));
    r
}

/// The arguments that compress the contents of `src_dir` into `dest`.
pub fn seven_zip_compress_args(src_dir: &str, dest: &str) -> (r: Vec<String>)
    ensures
        arg_views(r@) == spec_compress_args(src_dir@, dest@),
{
    proof {
        reveal_strlit("a");
        reveal_strlit("-sdel");
        reveal_strlit("/*");
        reveal_strlit("-mx9");
        assert("a"@ =~= seq!['a']);
        assert("-sdel"@ =~= seq!['-', 's', 'd', 'e', 'l']);
        assert("/*"@ =~= seq!['/', '*']);
        assert("-mx9"@ =~= seq!['-', 'm', 'x', '9']);
    }
    let mut r: Vec<String> = Vec::new();
    r.push(literal("a"));
    r.push(literal("-sdel"));
    r.push(literal(dest));
    r.push(literal(src_dir).concat("/*"));
    r.push(literal("-mx9"));
    assert(arg_views(r@) =~= spec_compress_args(src_dir@, dest@));
    r
}

/// The arguments that extract the RAR archive `archive` into the download
/// directory.
pub fn rar_extract_args(archive: &str) -> (r: Vec<String>)
    ensures
        arg_views(r@) == spec_rar_extract_args(archive@),
{
    proof {
        reveal_strlit("x");
        reveal_strlit("-o./lake/");
        assert("x"@ =~= seq!['x']);
        assert("-o./lake/"@ =~= seq!['-', 'o', '.', '/', 'l', 'a', 'k', 'e', '/']);
    }
    let mut r: Vec<String> = Vec::new();
    r.push(literal("x"));
    r.push(literal("-o./lake/"));
    r.push(literal(archive));
    assert(arg_views(r@) =~= spec_rar_extract_args(archive@));
    r
}

/// The archiver is `7z`; it extracts with `x -o<dest> <archive> -aoa`,
/// compresses with `a -sdel <dest> <src_dir>/* -mx9`, and extracts a RAR
/// archive with `x -o./lake/ <archive>`.
pub proof fn lemma_command_lines(archive: Seq<char>, dest: Seq<char>, src_dir: Seq<char>)
    ensures
        spec_seven_zip_program() == "7z"@,
        spec_extract_args(archive, dest) == seq!["x"@, "-o"@ + dest, archive, "-aoa"@],
        spec_compress_args(src_dir, dest) == seq!["a"@, "-sdel"@, dest, src_dir + "/*"@, "-mx9"@],
        spec_rar_extract_args(archive) == seq!["x"@, "-o./lake/"@, archive],
{
    reveal_strlit("7z");
    reveal_strlit("x");
    reveal_strlit("-o");
    reveal_strlit("-aoa");
    reveal_strlit("a");
    reveal_strlit("-sdel");
    reveal_strlit("/*");
    reveal_strlit("-mx9");
    reveal_strlit("-o./lake/");
    assert(spec_seven_zip_program() =~= "7z"@);
    assert(seq!['x'] =~= "x"@);
    assert(seq!['-', 'o'] =~= "-o"@);
    assert(seq!['-', 'a', 'o', 'a'] =~= "-aoa"@);
    assert(seq!['a'] =~= "a"@);
    assert(seq!['-', 's', 'd', 'e', 'l'] =~= "-sdel"@);
    assert(seq!['/', '*'] =~= "/*"@);
    assert(seq!['-', 'm', 'x', '9'] =~= "-mx9"@);
    assert(seq!['-', 'o', '.', '/', 'l', 'a', 'k', 'e', '/'] =~= "-o./lake/"@);
}

} // verus!
