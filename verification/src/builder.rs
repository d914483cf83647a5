//! The tree builder: scores each file of the input tree, prunes zero-score
//! files and directories, and aggregates scores and line counts bottom-up.

use vstd::prelude::*;
use crate::model::{
    Directory, DirectoryFile, DirV, FileRecV, FsDir, FsDirV, FsFileV, dir_file_count,
    dir_total_lines, dir_total_score, dirs_file_count, dirs_total_lines, dirs_total_score,
    dirs_view, fs_dir_lines, fs_dir_score, fs_dirs_lines, fs_dir_view, fs_dirs_score,
    fs_file_view, fs_files_lines, fs_files_score, fs_files_view, lemma_dirs_view_index,
    lemma_dirs_view_push, lemma_fs_dir_score_ge_lines, lemma_fs_dirs_view_index, recs_lines,
    recs_score, recs_view, subs_lines, subs_score,
};
use crate::scoring::{lemma_lines_score_ge_len, line_score_total, lines_score, token_counter};

verus! {

/// The record the scorer produces for one input file: its name, its line
/// count, and the sum of its per-line scores.
pub open spec fn file_record_of(f: FsFileV) -> FileRecV {
    FileRecV { file_name: f.name, text_lines: f.lines.len(), score: lines_score(f.lines) }
}

/// The file records that survive pruning: one per input file whose score is
/// nonzero, in input order.
pub open spec fn records_of(fs: Seq<FsFileV>) -> Seq<FileRecV>
    decreases fs.len(),
{
    if fs.len() == 0 {
        Seq::empty()
    } else {
        let r = file_record_of(fs[0]);
        let rest = records_of(fs.drop_first());
        if r.score != 0 {
            seq![r] + rest
        } else {
            rest
        }
    }
}

/// The directory nodes that survive pruning: one per input subdirectory with
/// a nonzero aggregated score, built recursively, in input order.
pub open spec fn build_subs(s: Seq<FsDirV>) -> Seq<DirV>
    decreases s,
{
    if s.len() == 0 {
        Seq::empty()
    } else {
        let c = build_spec(s[0]);
        let rest = build_subs(s.subrange(1, s.len() as int));
        if c.score != 0 {
            seq![c] + rest
        } else {
            rest
        }
    }
}

/// The weighted tree the builder produces for one input directory: the same
/// path, the input's total score and line count as the node's aggregates,
/// and the surviving files and subdirectories.
pub open spec fn build_spec(d: FsDirV) -> DirV
    decreases d,
{
    DirV {
        path: d.path,
        score: fs_dir_score(d),
        text_lines: fs_dir_lines(d),
        files: records_of(d.files),
        directories: build_subs(d.subdirs),
    }
}

/// Pruning drops only zero-score files, and a zero-score file has no lines,
/// so the surviving records still carry the input's full totals.
pub proof fn lemma_records_preserve(fs: Seq<FsFileV>)
    ensures
        recs_score(records_of(fs)) == fs_files_score(fs),
        recs_lines(records_of(fs)) == fs_files_lines(fs),
    decreases fs.len(),
{
    if fs.len() > 0 {
        lemma_records_preserve(fs.drop_first());
        let r = file_record_of(fs[0]);
        let rest = records_of(fs.drop_first());
        if r.score != 0 {
            assert((seq![r] + rest)[0] == r);
            assert((seq![r] + rest).drop_first() =~= rest);
        } else {
            lemma_lines_score_ge_len(fs[0].lines);
        }
    }
}

/// Pruning drops only zero-score subtrees, which hold no lines either, so
/// the surviving nodes still carry the input's full totals.
pub proof fn lemma_build_subs_preserve(s: Seq<FsDirV>)
    ensures
        subs_score(build_subs(s)) == fs_dirs_score(s),
        subs_lines(build_subs(s)) == fs_dirs_lines(s),
    decreases s,
{
    if s.len() > 0 {
        let t = s.subrange(1, s.len() as int);
        lemma_build_subs_preserve(t);
        let c = build_spec(s[0]);
        let rest = build_subs(t);
        if c.score != 0 {
            assert((seq![c] + rest)[0] == c);
            assert((seq![c] + rest).drop_first() =~= rest);
        } else {
            lemma_fs_dir_score_ge_lines(s[0]);
        }
    }
}

/// Recomputing a built node's totals from its parts, ignoring every stored
/// aggregate, gives back the input's totals.
pub proof fn lemma_build_total(d: FsDirV)
    ensures
        dir_total_score(build_spec(d)) == fs_dir_score(d),
        dir_total_lines(build_spec(d)) == fs_dir_lines(d),
    decreases d,
{
    lemma_records_preserve(d.files);
    lemma_build_subs_total(d.subdirs);
}

/// `lemma_build_total` over a sequence of input directories.
pub proof fn lemma_build_subs_total(s: Seq<FsDirV>)
    ensures
        dirs_total_score(build_subs(s)) == fs_dirs_score(s),
        dirs_total_lines(build_subs(s)) == fs_dirs_lines(s),
    decreases s,
{
    if s.len() > 0 {
        let t = s.subrange(1, s.len() as int);
        lemma_build_subs_total(t);
        lemma_build_total(s[0]);
        let c = build_spec(s[0]);
        let rest = build_subs(t);
        if c.score != 0 {
            let w = seq![c] + rest;
            assert(w[0] == c);
            assert(w.subrange(1, w.len() as int) =~= rest);
        } else {
            lemma_fs_dir_score_ge_lines(s[0]);
        }
    }
}

/// Score one recognized file: count its lines and sum their per-line
/// scores. Every line counts toward `text_lines`, whether or not it scored.
pub fn score_file(file_name: String, lines: &Vec<String>) -> (r: DirectoryFile)
    requires
        lines_score(lines.deep_view()) <= u64::MAX,
    ensures
        r@.file_name == file_name@,
        r@.text_lines == lines@.len(),
        r@.score == lines_score(lines.deep_view()),
{
    let ghost ls = lines.deep_view();
    let mut score: u64 = 0;
    let mut k: usize = 0;
    proof {
        assert(ls.subrange(0, ls.len() as int) =~= ls);
    }
    while k < lines.len()
        invariant
            k <= lines.len(),
            ls == lines.deep_view(),
            lines_score(ls) <= u64::MAX,
            score + lines_score(ls.subrange(k as int, ls.len() as int)) == lines_score(ls),
        decreases lines.len() - k,
    {
        proof {
            let suf = ls.subrange(k as int, ls.len() as int);
            assert(suf[0] == ls[k as int]);
            assert(suf.drop_first() =~= ls.subrange(k + 1, ls.len() as int));
        }
        let t = token_counter(lines[k].as_str());
        score = score + t;
        k += 1;
    }
    proof {
        assert(ls.subrange(k as int, ls.len() as int) =~= Seq::<Seq<char>>::empty());
    }
    DirectoryFile { file_name, text_lines: lines.len() as u64, score }
}

/// Recompute a directory's score from scratch: the sum of its files' stored
/// scores plus the recursively recomputed scores of its subdirectories.
pub fn calculate_directory_score(directory: &Directory) -> (s: u64)
    requires
        dir_total_score(directory@) <= u64::MAX,
    ensures
        s == dir_total_score(directory@),
    decreases *directory,
{
    let ghost fr = directory@.files;
    let ghost dr = directory@.directories;
    let mut total: u64 = 0;
    let mut i: usize = 0;
    proof {
        assert(fr.subrange(0, fr.len() as int) =~= fr);
    }
    while i < directory.files.len()
        invariant
            i <= directory.files.len(),
            fr == directory@.files,
            dr == directory@.directories,
            dir_total_score(directory@) <= u64::MAX,
            total + recs_score(fr.subrange(i as int, fr.len() as int)) + dirs_total_score(dr)
                == dir_total_score(directory@),
        decreases directory.files.len() - i,
    {
        proof {
            let suf = fr.subrange(i as int, fr.len() as int);
            assert(suf[0] == fr[i as int]);
            assert(suf.drop_first() =~= fr.subrange(i + 1, fr.len() as int));
        }
        total = total + directory.files[i].score;
        i += 1;
    }
    let mut j: usize = 0;
    proof {
        assert(fr.subrange(i as int, fr.len() as int) =~= Seq::<FileRecV>::empty());
        assert(dr.subrange(0, dr.len() as int) =~= dr);
    }
    while j < directory.directories.len()
        invariant
            j <= directory.directories.len(),
            dr == directory@.directories,
            dir_total_score(directory@) <= u64::MAX,
            total + dirs_total_score(dr.subrange(j as int, dr.len() as int))
                == dir_total_score(directory@),
        decreases directory.directories.len() - j,
    {
        proof {
            lemma_dirs_view_index(directory.directories@);
            let suf = dr.subrange(j as int, dr.len() as int);
            assert(suf[0] == dr[j as int]);
            assert(suf.subrange(1, suf.len() as int) =~= dr.subrange(j + 1, dr.len() as int));
        }
        let sub = calculate_directory_score(&directory.directories[j]);
        total = total + sub;
        j += 1;
    }
    proof {
        lemma_dirs_view_index(directory.directories@);
        assert(dr.subrange(j as int, dr.len() as int) =~= Seq::<DirV>::empty());
    }
    total
}

/// Recompute a directory's line count from scratch, the same way
/// `calculate_directory_score` recomputes its score.
pub fn calculate_directory_text_lines(directory: &Directory) -> (l: u64)
    requires
        dir_total_lines(directory@) <= u64::MAX,
    ensures
        l == dir_total_lines(directory@),
    decreases *directory,
{
    let ghost fr = directory@.files;
    let ghost dr = directory@.directories;
    let mut total: u64 = 0;
    let mut i: usize = 0;
    proof {
        assert(fr.subrange(0, fr.len() as int) =~= fr);
    }
    while i < directory.files.len()
        invariant
            i <= directory.files.len(),
            fr == directory@.files,
            dr == directory@.directories,
            dir_total_lines(directory@) <= u64::MAX,
            total + recs_lines(fr.subrange(i as int, fr.len() as int)) + dirs_total_lines(dr)
                == dir_total_lines(directory@),
        decreases directory.files.len() - i,
    {
        proof {
            let suf = fr.subrange(i as int, fr.len() as int);
            assert(suf[0] == fr[i as int]);
            assert(suf.drop_first() =~= fr.subrange(i + 1, fr.len() as int));
        }
        total = total + directory.files[i].text_lines;
        i += 1;
    }
    let mut j: usize = 0;
    proof {
        assert(fr.subrange(i as int, fr.len() as int) =~= Seq::<FileRecV>::empty());
        assert(dr.subrange(0, dr.len() as int) =~= dr);
    }
    while j < directory.directories.len()
        invariant
            j <= directory.directories.len(),
            dr == directory@.directories,
            dir_total_lines(directory@) <= u64::MAX,
            total + dirs_total_lines(dr.subrange(j as int, dr.len() as int))
                == dir_total_lines(directory@),
        decreases directory.directories.len() - j,
    {
        proof {
            lemma_dirs_view_index(directory.directories@);
            let suf = dr.subrange(j as int, dr.len() as int);
            assert(suf[0] == dr[j as int]);
            assert(suf.subrange(1, suf.len() as int) =~= dr.subrange(j + 1, dr.len() as int));
        }
        let sub = calculate_directory_text_lines(&directory.directories[j]);
        total = total + sub;
        j += 1;
    }
    proof {
        lemma_dirs_view_index(directory.directories@);
        assert(dr.subrange(j as int, dr.len() as int) =~= Seq::<DirV>::empty());
    }
    total
}

/// Number of file records in the tree, counted at every level. Only files
/// that survived pruning are in the tree, so only they are counted.
pub fn get_total_files_read(directory: &Directory) -> (n: u64)
    requires
        dir_file_count(directory@) <= u64::MAX,
    ensures
        n == dir_file_count(directory@),
    decreases *directory,
{
    let ghost dr = directory@.directories;
    let mut total: u64 = directory.files.len() as u64;
    let mut j: usize = 0;
    proof {
        assert(dr.subrange(0, dr.len() as int) =~= dr);
    }
    while j < directory.directories.len()
        invariant
            j <= directory.directories.len(),
            dr == directory@.directories,
            dir_file_count(directory@) <= u64::MAX,
            total + dirs_file_count(dr.subrange(j as int, dr.len() as int))
                == dir_file_count(directory@),
        decreases directory.directories.len() - j,
    {
        proof {
            lemma_dirs_view_index(directory.directories@);
            let suf = dr.subrange(j as int, dr.len() as int);
            assert(suf[0] == dr[j as int]);
            assert(suf.subrange(1, suf.len() as int) =~= dr.subrange(j + 1, dr.len() as int));
        }
        let sub = get_total_files_read(&directory.directories[j]);
        total = total + sub;
        j += 1;
    }
    proof {
        lemma_dirs_view_index(directory.directories@);
        assert(dr.subrange(j as int, dr.len() as int) =~= Seq::<DirV>::empty());
    }
    total
}

/// Recompute the root's totals the way the top-level driver does: by summing
/// only its direct subdirectories' stored totals. Files lying directly under
/// the scanned root are deliberately left out of this final recount; the
/// root node is the one place where the stored totals and the recursive sum
/// are allowed to disagree.
pub fn finalize_root(root: &mut Directory)
    requires
        subs_score(old(root)@.directories) <= u64::MAX,
        subs_lines(old(root)@.directories) <= u64::MAX,
    ensures
        final(root)@ == (DirV {
            score: subs_score(old(root)@.directories),
            text_lines: subs_lines(old(root)@.directories),
            ..old(root)@
        }),
{
    let ghost dr = old(root)@.directories;
    let mut s: u64 = 0;
    let mut l: u64 = 0;
    let mut j: usize = 0;
    proof {
        assert(dr.subrange(0, dr.len() as int) =~= dr);
    }
    while j < root.directories.len()
        invariant
            j <= root.directories.len(),
            *root == *old(root),
            dr == old(root)@.directories,
            subs_score(dr) <= u64::MAX,
            subs_lines(dr) <= u64::MAX,
            s + subs_score(dr.subrange(j as int, dr.len() as int)) == subs_score(dr),
            l + subs_lines(dr.subrange(j as int, dr.len() as int)) == subs_lines(dr),
        decreases root.directories.len() - j,
    {
        proof {
            lemma_dirs_view_index(root.directories@);
            let suf = dr.subrange(j as int, dr.len() as int);
            assert(suf[0] == dr[j as int]);
            assert(suf.drop_first() =~= dr.subrange(j + 1, dr.len() as int));
        }
        s = s + root.directories[j].score;
        l = l + root.directories[j].text_lines;
        j += 1;
    }
    proof {
        lemma_dirs_view_index(root.directories@);
        assert(dr.subrange(j as int, dr.len() as int) =~= Seq::<DirV>::empty());
    }
    root.score = s;
    root.text_lines = l;
    proof {
        assert(root@ =~= (DirV {
            score: subs_score(old(root)@.directories),
            text_lines: subs_lines(old(root)@.directories),
            ..old(root)@
        }));
    }
}

/// Build the weighted tree for one input directory: build and prune its
/// subdirectories recursively, score and prune its files, then set the
/// node's totals by recomputing them over the pruned node.
pub fn build_tree(input: &FsDir) -> (r: Directory)
    requires
        fs_dir_score(input@) <= u64::MAX,
        fs_dir_lines(input@) <= u64::MAX,
    ensures
        r@ == build_spec(input@),
    decreases *input,
{
    let ghost iv = input@;
    let ghost dv = iv.subdirs;
    let ghost fv = iv.files;
    let mut directories: Vec<Directory> = Vec::new();
    let mut i: usize = 0;
    proof {
        assert(dv.subrange(0, dv.len() as int) =~= dv);
        assert(dirs_view(directories@) =~= Seq::<DirV>::empty());
        assert(dirs_view(directories@) + build_subs(dv) =~= build_subs(dv));
        lemma_fs_dirs_view_index(input.subdirs@);
    }
    while i < input.subdirs.len()
        invariant
            i <= input.subdirs.len(),
            iv == input@,
            dv == iv.subdirs,
            fs_dir_score(iv) <= u64::MAX,
            fs_dir_lines(iv) <= u64::MAX,
            fs_dirs_score(dv.subrange(i as int, dv.len() as int)) <= fs_dirs_score(dv),
            fs_dirs_lines(dv.subrange(i as int, dv.len() as int)) <= fs_dirs_lines(dv),
            build_subs(dv) == dirs_view(directories@) + build_subs(
                dv.subrange(i as int, dv.len() as int),
            ),
        decreases input.subdirs.len() - i,
    {
        proof {
            lemma_fs_dirs_view_index(input.subdirs@);
            let suf = dv.subrange(i as int, dv.len() as int);
            assert(suf[0] == dv[i as int]);
            assert(suf.subrange(1, suf.len() as int) =~= dv.subrange(i + 1, dv.len() as int));
            assert(dv[i as int] == fs_dir_view(input.subdirs@[i as int]));
        }
        let child = build_tree(&input.subdirs[i]);
        let ghost c = build_spec(dv[i as int]);
        if child.score != 0 {
            let ghost od = directories@;
            directories.push(child);
            proof {
                lemma_dirs_view_push(od, child);
                assert(child@ == c);
                assert(c.score != 0);
                assert(build_subs(dv.subrange(i as int, dv.len() as int)) == seq![c] + build_subs(
                    dv.subrange(i + 1, dv.len() as int),
                ));
                assert(dirs_view(od) + (seq![c] + build_subs(dv.subrange(i + 1, dv.len() as int)))
                    =~= (dirs_view(od) + seq![c]) + build_subs(dv.subrange(i + 1, dv.len() as int)));
            }
        } else {
            proof {
                assert(child@ == c);
                assert(c.score == 0);
                assert(build_subs(dv.subrange(i as int, dv.len() as int)) == build_subs(
                    dv.subrange(i + 1, dv.len() as int),
                ));
            }
        }
        i += 1;
    }
    let mut files: Vec<DirectoryFile> = Vec::new();
    let mut k: usize = 0;
    proof {
        lemma_fs_dirs_view_index(input.subdirs@);
        assert(dv.subrange(i as int, dv.len() as int) =~= Seq::<FsDirV>::empty());
        assert(dirs_view(directories@) + Seq::<DirV>::empty() =~= dirs_view(directories@));
        assert(fv.subrange(0, fv.len() as int) =~= fv);
        assert(recs_view(files@) =~= Seq::<FileRecV>::empty());
        assert(recs_view(files@) + records_of(fv) =~= records_of(fv));
    }
    while k < input.files.len()
        invariant
            k <= input.files.len(),
            iv == input@,
            fv == iv.files,
            fs_dir_score(iv) <= u64::MAX,
            fs_files_score(fv.subrange(k as int, fv.len() as int)) <= fs_files_score(fv),
            records_of(fv) == recs_view(files@) + records_of(
                fv.subrange(k as int, fv.len() as int),
            ),
        decreases input.files.len() - k,
    {
        proof {
            let suf = fv.subrange(k as int, fv.len() as int);
            assert(suf[0] == fv[k as int]);
            assert(suf.drop_first() =~= fv.subrange(k + 1, fv.len() as int));
            assert(fv == fs_files_view(input.files@));
            assert(fv[k as int] == fs_file_view(input.files@[k as int]));
        }
        let rec = score_file(input.files[k].name.clone(), &input.files[k].lines);
        let ghost r = file_record_of(fv[k as int]);
        if rec.score != 0 {
            let ghost of = files@;
            files.push(rec);
            proof {
                assert(rec@ =~= r);
                assert(r.score != 0);
                assert(records_of(fv.subrange(k as int, fv.len() as int)) == seq![r] + records_of(
                    fv.subrange(k + 1, fv.len() as int),
                ));
                assert(recs_view(files@) =~= recs_view(of).push(r));
                assert(recs_view(of).push(r) =~= recs_view(of) + seq![r]);
                assert(recs_view(of) + (seq![r] + records_of(fv.subrange(k + 1, fv.len() as int)))
                    =~= (recs_view(of) + seq![r]) + records_of(fv.subrange(k + 1, fv.len() as int)));
            }
        } else {
            proof {
                assert(rec@ =~= r);
                assert(r.score == 0);
                assert(records_of(fv.subrange(k as int, fv.len() as int)) == records_of(
                    fv.subrange(k + 1, fv.len() as int),
                ));
            }
        }
        k += 1;
    }
    let path = input.path.clone();
    let mut node = Directory { path, score: 0, text_lines: 0, files, directories };
    proof {
        assert(fv.subrange(k as int, fv.len() as int) =~= Seq::<FsFileV>::empty());
        assert(recs_view(node.files@) + Seq::<FileRecV>::empty() =~= recs_view(node.files@));
        assert(node@.files == records_of(fv));
        assert(node@.directories == build_subs(dv));
        lemma_records_preserve(fv);
        lemma_build_subs_total(dv);
    }
    let s = calculate_directory_score(&node);
    let l = calculate_directory_text_lines(&node);
    node.score = s;
    node.text_lines = l;
    proof {
        assert(node@ =~= build_spec(iv));
    }
    node
}

/// Compute an input directory's total score and line count, reporting
/// failure instead of overflowing where either total would not fit.
fn try_totals(d: &FsDir) -> (r: Option<(u64, u64)>)
    ensures
        (r is None) == (fs_dir_score(d@) > u64::MAX || fs_dir_lines(d@) > u64::MAX),
        r matches Some(t) ==> t.0 == fs_dir_score(d@) && t.1 == fs_dir_lines(d@),
    decreases *d,
{
    let ghost dv0 = d@;
    let ghost fv = dv0.files;
    let ghost dv = dv0.subdirs;
    let mut score: u64 = 0;
    let mut lines: u64 = 0;
    let mut k: usize = 0;
    proof {
        assert(fv.subrange(0, fv.len() as int) =~= fv);
    }
    while k < d.files.len()
        invariant
            k <= d.files.len(),
            dv0 == d@,
            fv == dv0.files,
            dv == dv0.subdirs,
            score + fs_files_score(fv.subrange(k as int, fv.len() as int)) == fs_files_score(fv),
            lines + fs_files_lines(fv.subrange(k as int, fv.len() as int)) == fs_files_lines(fv),
        decreases d.files.len() - k,
    {
        proof {
            let suf = fv.subrange(k as int, fv.len() as int);
            assert(suf[0] == fv[k as int]);
            assert(suf.drop_first() =~= fv.subrange(k + 1, fv.len() as int));
            assert(fv == fs_files_view(d.files@));
            assert(fv[k as int] == fs_file_view(d.files@[k as int]));
        }
        let fl = &d.files[k];
        let ghost ls = fl.lines.deep_view();
        let mut facc: u128 = 0;
        let mut q: usize = 0;
        proof {
            assert(ls.subrange(0, ls.len() as int) =~= ls);
        }
        while q < fl.lines.len()
            invariant
                q <= fl.lines.len(),
                ls == fl.lines.deep_view(),
                ls == fv[k as int].lines,
                k < d.files.len(),
                dv0 == d@,
                fv == dv0.files,
                dv == dv0.subdirs,
                facc <= u64::MAX,
                facc + lines_score(ls.subrange(q as int, ls.len() as int)) == lines_score(ls),
                score + fs_files_score(fv.subrange(k as int, fv.len() as int)) == fs_files_score(
                    fv,
                ),
                fs_files_score(fv.subrange(k as int, fv.len() as int)) == lines_score(ls)
                    + fs_files_score(fv.subrange(k + 1, fv.len() as int)),
            decreases fl.lines.len() - q,
        {
            proof {
                let lsuf = ls.subrange(q as int, ls.len() as int);
                assert(lsuf[0] == ls[q as int]);
                assert(lsuf.drop_first() =~= ls.subrange(q + 1, ls.len() as int));
            }
            let t = line_score_total(fl.lines[q].as_str());
            if t > u64::MAX as u128 - facc {
                proof {
                    assert(lines_score(ls) > u64::MAX);
                    assert(fs_files_score(fv) > u64::MAX);
                    assert(fs_dir_score(dv0) > u64::MAX);
                }
                return None;
            }
            facc = facc + t;
            q += 1;
        }
        proof {
            assert(ls.subrange(q as int, ls.len() as int) =~= Seq::<Seq<char>>::empty());
            assert(facc == lines_score(ls));
        }
        let fscore = facc as u64;
        if fscore > u64::MAX - score {
            proof {
                assert(fs_files_score(fv) > u64::MAX);
                assert(fs_dir_score(dv0) > u64::MAX);
            }
            return None;
        }
        score = score + fscore;
        let fcount = fl.lines.len() as u64;
        if fcount > u64::MAX - lines {
            proof {
                assert(fs_files_lines(fv) > u64::MAX);
                assert(fs_dir_lines(dv0) > u64::MAX);
            }
            return None;
        }
        lines = lines + fcount;
        k += 1;
    }
    proof {
        assert(fv.subrange(k as int, fv.len() as int) =~= Seq::<FsFileV>::empty());
        assert(dv.subrange(0, dv.len() as int) =~= dv);
    }
    let mut j: usize = 0;
    while j < d.subdirs.len()
        invariant
            j <= d.subdirs.len(),
            dv0 == d@,
            fv == dv0.files,
            dv == dv0.subdirs,
            score + fs_dirs_score(dv.subrange(j as int, dv.len() as int)) == fs_files_score(fv)
                + fs_dirs_score(dv),
            lines + fs_dirs_lines(dv.subrange(j as int, dv.len() as int)) == fs_files_lines(fv)
                + fs_dirs_lines(dv),
        decreases d.subdirs.len() - j,
    {
        proof {
            lemma_fs_dirs_view_index(d.subdirs@);
            let suf = dv.subrange(j as int, dv.len() as int);
            assert(suf[0] == dv[j as int]);
            assert(suf.subrange(1, suf.len() as int) =~= dv.subrange(j + 1, dv.len() as int));
            assert(dv[j as int] == fs_dir_view(d.subdirs@[j as int]));
        }
        let sub = try_totals(&d.subdirs[j]);
        match sub {
            None => {
                proof {
                    assert(fs_dir_score(dv0) == fs_files_score(fv) + fs_dirs_score(dv));
                    assert(fs_dir_lines(dv0) == fs_files_lines(fv) + fs_dirs_lines(dv));
                    assert(fs_dir_score(dv0) > u64::MAX || fs_dir_lines(dv0) > u64::MAX);
                }
                return None;
            },
            Some((cs, cl)) => {
                if cs > u64::MAX - score {
                    proof {
                        assert(fs_dir_score(dv0) > u64::MAX);
                    }
                    return None;
                }
                score = score + cs;
                if cl > u64::MAX - lines {
                    proof {
                        assert(fs_dir_lines(dv0) > u64::MAX);
                    }
                    return None;
                }
                lines = lines + cl;
            },
        }
        j += 1;
    }
    proof {
        lemma_fs_dirs_view_index(d.subdirs@);
        assert(dv.subrange(j as int, dv.len() as int) =~= Seq::<FsDirV>::empty());
        assert(score == fs_dir_score(dv0));
        assert(lines == fs_dir_lines(dv0));
    }
    Some((score, lines))
}

/// Whether an input tree's total score and total line count both fit the
/// result type, so that `build_tree` may be called on it.
pub fn input_fits(input: &FsDir) -> (b: bool)
    ensures
        b == (fs_dir_score(input@) <= u64::MAX && fs_dir_lines(input@) <= u64::MAX),
{
    try_totals(input).is_some()
}

/// The whole scan as the driver runs it: build the weighted tree, then
/// replace the root's totals by the sum of its direct subdirectories' stored
/// totals.
pub fn scan_root(input: &FsDir) -> (r: Directory)
    requires
        fs_dir_score(input@) <= u64::MAX,
        fs_dir_lines(input@) <= u64::MAX,
    ensures
        r@ == (DirV {
            score: subs_score(build_spec(input@).directories),
            text_lines: subs_lines(build_spec(input@).directories),
            ..build_spec(input@)
        }),
{
    let mut tree = build_tree(input);
    proof {
        lemma_build_subs_preserve(input@.subdirs);
    }
    finalize_root(&mut tree);
    tree
}

/// Count the file records in the tree, reporting failure instead of
/// overflowing where the count would not fit.
pub fn try_total_files(directory: &Directory) -> (r: Option<u64>)
    ensures
        (r is None) == (dir_file_count(directory@) > u64::MAX),
        r matches Some(n) ==> n == dir_file_count(directory@),
    decreases *directory,
{
    let ghost dr = directory@.directories;
    let mut total: u64 = directory.files.len() as u64;
    let mut j: usize = 0;
    proof {
        assert(dr.subrange(0, dr.len() as int) =~= dr);
    }
    while j < directory.directories.len()
        invariant
            j <= directory.directories.len(),
            dr == directory@.directories,
            total + dirs_file_count(dr.subrange(j as int, dr.len() as int)) == dir_file_count(
                directory@,
            ),
        decreases directory.directories.len() - j,
    {
        proof {
            lemma_dirs_view_index(directory.directories@);
            let suf = dr.subrange(j as int, dr.len() as int);
            assert(suf[0] == dr[j as int]);
            assert(suf.subrange(1, suf.len() as int) =~= dr.subrange(j + 1, dr.len() as int));
        }
        let sub = try_total_files(&directory.directories[j]);
        match sub {
            None => {
                return None;
            },
            Some(n) => {
                if n > u64::MAX - total {
                    return None;
                }
                total = total + n;
            },
        }
        j += 1;
    }
    proof {
        lemma_dirs_view_index(directory.directories@);
        assert(dr.subrange(j as int, dr.len() as int) =~= Seq::<DirV>::empty());
    }
    Some(total)
}

} // verus!
