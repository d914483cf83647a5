//! The data model: the input tree the walker hands over (directories with
//! the recognized files' names and lines), the weighted output tree, and the
//! mathematical views and sums the contracts are stated over.

use vstd::prelude::*;
use crate::scoring::lines_score;

verus! {

/// One recognized source file as read from disk: its base name and its lines.
pub struct FsFile {
    pub name: String,
    pub lines: Vec<String>,
}

/// One directory as enumerated on disk: its path, the recognized files
/// directly in it, and its immediate subdirectories, both in enumeration
/// order.
pub struct FsDir {
    pub path: String,
    pub files: Vec<FsFile>,
    pub subdirs: Vec<FsDir>,
}

/// A scored file that survived pruning: base name, number of lines read, and
/// the sum of its per-line scores.
#[derive(Debug)]
pub struct DirectoryFile {
    pub file_name: String,
    pub text_lines: u64,
    pub score: u64,
}

/// A scored directory: its path, aggregated score and line count, and the
/// surviving files and subdirectories, in enumeration order.
#[derive(Debug)]
pub struct Directory {
    pub path: String,
    pub score: u64,
    pub text_lines: u64,
    pub files: Vec<DirectoryFile>,
    pub directories: Vec<Directory>,
}

/// Mathematical view of `FsFile`.
#[verifier::ext_equal]
pub ghost struct FsFileV {
    pub name: Seq<char>,
    pub lines: Seq<Seq<char>>,
}

/// Mathematical view of `FsDir`.
#[verifier::ext_equal]
pub ghost struct FsDirV {
    pub path: Seq<char>,
    pub files: Seq<FsFileV>,
    pub subdirs: Seq<FsDirV>,
}

/// Mathematical view of `DirectoryFile`.
#[verifier::ext_equal]
pub ghost struct FileRecV {
    pub file_name: Seq<char>,
    pub text_lines: nat,
    pub score: nat,
}

/// Mathematical view of `Directory`.
#[verifier::ext_equal]
pub ghost struct DirV {
    pub path: Seq<char>,
    pub score: nat,
    pub text_lines: nat,
    pub files: Seq<FileRecV>,
    pub directories: Seq<DirV>,
}

pub open spec fn fs_file_view(f: FsFile) -> FsFileV {
    FsFileV { name: f.name@, lines: f.lines.deep_view() }
}

pub open spec fn fs_files_view(s: Seq<FsFile>) -> Seq<FsFileV> {
    Seq::new(s.len(), |i: int| fs_file_view(s[i]))
}

pub open spec fn fs_dir_view(d: FsDir) -> FsDirV
    decreases d,
{
    FsDirV {
        path: d.path@,
        files: fs_files_view(d.files@),
        subdirs: fs_dirs_view(d.subdirs@),
    }
}

pub open spec fn fs_dirs_view(s: Seq<FsDir>) -> Seq<FsDirV>
    decreases s,
{
    if s.len() == 0 {
        Seq::empty()
    } else {
        seq![fs_dir_view(s[0])] + fs_dirs_view(s.subrange(1, s.len() as int))
    }
}

impl View for FsFile {
    type V = FsFileV;

    open spec fn view(&self) -> FsFileV {
        fs_file_view(*self)
    }
}

impl View for FsDir {
    type V = FsDirV;

    open spec fn view(&self) -> FsDirV {
        fs_dir_view(*self)
    }
}

pub open spec fn file_rec_view(f: DirectoryFile) -> FileRecV {
    FileRecV { file_name: f.file_name@, text_lines: f.text_lines as nat, score: f.score as nat }
}

pub open spec fn recs_view(s: Seq<DirectoryFile>) -> Seq<FileRecV> {
    Seq::new(s.len(), |i: int| file_rec_view(s[i]))
}

pub open spec fn dir_view(d: Directory) -> DirV
    decreases d,
{
    DirV {
        path: d.path@,
        score: d.score as nat,
        text_lines: d.text_lines as nat,
        files: recs_view(d.files@),
        directories: dirs_view(d.directories@),
    }
}

pub open spec fn dirs_view(s: Seq<Directory>) -> Seq<DirV>
    decreases s,
{
    if s.len() == 0 {
        Seq::empty()
    } else {
        seq![dir_view(s[0])] + dirs_view(s.subrange(1, s.len() as int))
    }
}

impl View for DirectoryFile {
    type V = FileRecV;

    open spec fn view(&self) -> FileRecV {
        file_rec_view(*self)
    }
}

impl View for Directory {
    type V = DirV;

    open spec fn view(&self) -> DirV {
        dir_view(*self)
    }
}

/// `fs_dirs_view` maps `fs_dir_view` over the sequence, element by element.
pub proof fn lemma_fs_dirs_view_index(s: Seq<FsDir>)
    ensures
        fs_dirs_view(s).len() == s.len(),
        forall|i: int| 0 <= i < s.len() ==> fs_dirs_view(s)[i] == fs_dir_view(s[i]),
    decreases s,
{
    if s.len() > 0 {
        lemma_fs_dirs_view_index(s.subrange(1, s.len() as int));
        assert forall|i: int| 0 <= i < s.len() implies fs_dirs_view(s)[i] == fs_dir_view(s[i]) by {
            if i > 0 {
                assert(s.subrange(1, s.len() as int)[i - 1] == s[i]);
            }
        }
    }
}

/// `dirs_view` maps `dir_view` over the sequence, element by element.
pub proof fn lemma_dirs_view_index(s: Seq<Directory>)
    ensures
        dirs_view(s).len() == s.len(),
        forall|i: int| 0 <= i < s.len() ==> dirs_view(s)[i] == dir_view(s[i]),
    decreases s,
{
    if s.len() > 0 {
        lemma_dirs_view_index(s.subrange(1, s.len() as int));
        assert forall|i: int| 0 <= i < s.len() implies dirs_view(s)[i] == dir_view(s[i]) by {
            if i > 0 {
                assert(s.subrange(1, s.len() as int)[i - 1] == s[i]);
            }
        }
    }
}

/// Appending one directory to a sequence appends its view.
pub proof fn lemma_dirs_view_push(s: Seq<Directory>, d: Directory)
    ensures
        dirs_view(s.push(d)) == dirs_view(s) + seq![dir_view(d)],
    decreases s,
{
    let p = s.push(d);
    if s.len() == 0 {
        assert(p.subrange(1, p.len() as int) =~= Seq::<Directory>::empty());
        assert(p[0] == d);
        assert(dirs_view(p.subrange(1, p.len() as int)) == Seq::<DirV>::empty());
        assert(dirs_view(p) == seq![dir_view(d)] + Seq::<DirV>::empty());
        assert(dirs_view(s) == Seq::<DirV>::empty());
        assert(seq![dir_view(d)] + Seq::<DirV>::empty() =~= dirs_view(s) + seq![dir_view(d)]);
    } else {
        let t = s.subrange(1, s.len() as int);
        assert(p.subrange(1, p.len() as int) =~= t.push(d));
        lemma_dirs_view_push(t, d);
        assert(p[0] == s[0]);
        assert(dirs_view(p) == seq![dir_view(s[0])] + (dirs_view(t) + seq![dir_view(d)]));
        assert(seq![dir_view(s[0])] + (dirs_view(t) + seq![dir_view(d)]) =~= (seq![dir_view(s[0])]
            + dirs_view(t)) + seq![dir_view(d)]);
    }
}

// ---------------------------------------------------------------------------
// Totals of the input tree: what every file would score, before pruning.
// ---------------------------------------------------------------------------

/// Score a file would get: the sum of its per-line scores.
pub open spec fn fs_file_score(f: FsFileV) -> nat {
    lines_score(f.lines)
}

/// Total score of a sequence of input files.
pub open spec fn fs_files_score(s: Seq<FsFileV>) -> nat
    decreases s.len(),
{
    if s.len() == 0 {
        0
    } else {
        fs_file_score(s[0]) + fs_files_score(s.drop_first())
    }
}

/// Total line count of a sequence of input files.
pub open spec fn fs_files_lines(s: Seq<FsFileV>) -> nat
    decreases s.len(),
{
    if s.len() == 0 {
        0
    } else {
        s[0].lines.len() + fs_files_lines(s.drop_first())
    }
}

/// Total score of an input directory: all of its files' scores plus all of
/// its subdirectories' total scores, recursively.
pub open spec fn fs_dir_score(d: FsDirV) -> nat
    decreases d,
{
    fs_files_score(d.files) + fs_dirs_score(d.subdirs)
}

/// Total score of a sequence of input directories.
pub open spec fn fs_dirs_score(s: Seq<FsDirV>) -> nat
    decreases s,
{
    if s.len() == 0 {
        0
    } else {
        fs_dir_score(s[0]) + fs_dirs_score(s.subrange(1, s.len() as int))
    }
}

/// Total line count of an input directory, recursively.
pub open spec fn fs_dir_lines(d: FsDirV) -> nat
    decreases d,
{
    fs_files_lines(d.files) + fs_dirs_lines(d.subdirs)
}

/// Total line count of a sequence of input directories.
pub open spec fn fs_dirs_lines(s: Seq<FsDirV>) -> nat
    decreases s,
{
    if s.len() == 0 {
        0
    } else {
        fs_dir_lines(s[0]) + fs_dirs_lines(s.subrange(1, s.len() as int))
    }
}

/// A sequence of files scores at least its total line count, line by line.
pub proof fn lemma_fs_files_score_ge_lines(s: Seq<FsFileV>)
    ensures
        fs_files_score(s) >= fs_files_lines(s),
    decreases s.len(),
{
    if s.len() > 0 {
        crate::scoring::lemma_lines_score_ge_len(s[0].lines);
        lemma_fs_files_score_ge_lines(s.drop_first());
    }
}

/// A directory's total score is at least its total line count; in particular
/// a zero-score directory holds no lines anywhere below it.
pub proof fn lemma_fs_dir_score_ge_lines(d: FsDirV)
    ensures
        fs_dir_score(d) >= fs_dir_lines(d),
    decreases d,
{
    lemma_fs_files_score_ge_lines(d.files);
    lemma_fs_dirs_score_ge_lines(d.subdirs);
}

/// `lemma_fs_dir_score_ge_lines` over a sequence of directories.
pub proof fn lemma_fs_dirs_score_ge_lines(s: Seq<FsDirV>)
    ensures
        fs_dirs_score(s) >= fs_dirs_lines(s),
    decreases s,
{
    if s.len() > 0 {
        lemma_fs_dir_score_ge_lines(s[0]);
        lemma_fs_dirs_score_ge_lines(s.subrange(1, s.len() as int));
    }
}

// ---------------------------------------------------------------------------
// Sums over the output tree.
// ---------------------------------------------------------------------------

/// Sum of the stored scores of a sequence of file records.
pub open spec fn recs_score(s: Seq<FileRecV>) -> nat
    decreases s.len(),
{
    if s.len() == 0 {
        0
    } else {
        s[0].score + recs_score(s.drop_first())
    }
}

/// Sum of the stored line counts of a sequence of file records.
pub open spec fn recs_lines(s: Seq<FileRecV>) -> nat
    decreases s.len(),
{
    if s.len() == 0 {
        0
    } else {
        s[0].text_lines + recs_lines(s.drop_first())
    }
}

/// Sum of the stored scores of a sequence of directory nodes.
pub open spec fn subs_score(s: Seq<DirV>) -> nat
    decreases s.len(),
{
    if s.len() == 0 {
        0
    } else {
        s[0].score + subs_score(s.drop_first())
    }
}

/// Sum of the stored line counts of a sequence of directory nodes.
pub open spec fn subs_lines(s: Seq<DirV>) -> nat
    decreases s.len(),
{
    if s.len() == 0 {
        0
    } else {
        s[0].text_lines + subs_lines(s.drop_first())
    }
}

/// Score of a directory node recomputed from scratch: its files' stored
/// scores plus its subdirectories' recomputed scores, ignoring every node's
/// stored total.
pub open spec fn dir_total_score(d: DirV) -> nat
    decreases d,
{
    recs_score(d.files) + dirs_total_score(d.directories)
}

/// Recomputed scores of a sequence of directory nodes.
pub open spec fn dirs_total_score(s: Seq<DirV>) -> nat
    decreases s,
{
    if s.len() == 0 {
        0
    } else {
        dir_total_score(s[0]) + dirs_total_score(s.subrange(1, s.len() as int))
    }
}

/// Line count of a directory node recomputed from scratch.
pub open spec fn dir_total_lines(d: DirV) -> nat
    decreases d,
{
    recs_lines(d.files) + dirs_total_lines(d.directories)
}

/// Recomputed line counts of a sequence of directory nodes.
pub open spec fn dirs_total_lines(s: Seq<DirV>) -> nat
    decreases s,
{
    if s.len() == 0 {
        0
    } else {
        dir_total_lines(s[0]) + dirs_total_lines(s.subrange(1, s.len() as int))
    }
}

/// Number of file records in a directory node, recursively.
pub open spec fn dir_file_count(d: DirV) -> nat
    decreases d,
{
    d.files.len() + dirs_file_count(d.directories)
}

/// Number of file records in a sequence of directory nodes.
pub open spec fn dirs_file_count(s: Seq<DirV>) -> nat
    decreases s,
{
    if s.len() == 0 {
        0
    } else {
        dir_file_count(s[0]) + dirs_file_count(s.subrange(1, s.len() as int))
    }
}

// ---------------------------------------------------------------------------
// Structural predicates on the output tree.
// ---------------------------------------------------------------------------

/// The aggregation invariant: every node's stored score and line count equal
/// the sum over its own files and its subdirectories' stored totals.
pub open spec fn dir_wf(d: DirV) -> bool
    decreases d,
{
    &&& d.score == recs_score(d.files) + subs_score(d.directories)
    &&& d.text_lines == recs_lines(d.files) + subs_lines(d.directories)
    &&& dirs_wf(d.directories)
}

/// `dir_wf` of every node in a sequence.
pub open spec fn dirs_wf(s: Seq<DirV>) -> bool
    decreases s,
{
    if s.len() == 0 {
        true
    } else {
        dir_wf(s[0]) && dirs_wf(s.subrange(1, s.len() as int))
    }
}

/// The pruning invariant: no file record and no directory node anywhere in
/// the tree below this node has a zero score.
pub open spec fn dir_pruned(d: DirV) -> bool
    decreases d,
{
    &&& (forall|i: int| 0 <= i < d.files.len() ==> d.files[i].score != 0)
    &&& (forall|i: int| 0 <= i < d.directories.len() ==> #[trigger] d.directories[i].score != 0)
    &&& dirs_pruned(d.directories)
}

/// `dir_pruned` of every node in a sequence.
pub open spec fn dirs_pruned(s: Seq<DirV>) -> bool
    decreases s,
{
    if s.len() == 0 {
        true
    } else {
        dir_pruned(s[0]) && dirs_pruned(s.subrange(1, s.len() as int))
    }
}

} // verus!
