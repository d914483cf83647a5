use w8::builder::{
    build_tree, calculate_directory_score, calculate_directory_text_lines, finalize_root,
    get_total_files_read, input_fits, scan_root, score_file, try_total_files,
};
use w8::model::{Directory, FsDir, FsFile};
use w8::scoring::{count_matches, is_recognized, token_counter};

fn file(name: &str, lines: &[&str]) -> FsFile {
    FsFile { name: name.to_string(), lines: lines.iter().map(|s| s.to_string()).collect() }
}

fn dir(path: &str, files: Vec<FsFile>, subdirs: Vec<FsDir>) -> FsDir {
    FsDir { path: path.to_string(), files, subdirs }
}

/// root/fileA.java scores 5, root/sub/fileB.java scores 0, root/sub2/fileC.java
/// scores 2.
fn two_level_input() -> FsDir {
    dir(
        "root",
        vec![file("fileA.java", &["if if if if "])],
        vec![
            dir("root/sub", vec![file("fileB.java", &[])], vec![]),
            dir("root/sub2", vec![file("fileC.java", &["", " "])], vec![]),
        ],
    )
}

#[test]
fn scores_branching_and_stream_line() {
    assert_eq!(token_counter("if (x) { for (y) { list.map(z); } }"), 8);
}

#[test]
fn scores_blank_and_trivial_lines() {
    assert_eq!(token_counter(""), 1);
    assert_eq!(token_counter("   "), 1);
    assert_eq!(token_counter("x"), 1);
    assert_eq!(token_counter("}"), 1);
}

#[test]
fn scores_each_pattern() {
    assert_eq!(token_counter("if (a) b();"), 2);
    assert_eq!(token_counter("for (i) {}"), 4);
    assert_eq!(token_counter("xs.map(f)"), 4);
    assert_eq!(token_counter("xs.stream()"), 4);
    assert_eq!(token_counter("xs.flatMap(f)"), 4);
    assert_eq!(token_counter("xs.flatMapIterable(f)"), 7);
    assert_eq!(token_counter("xs.expand(f)"), 4);
    assert_eq!(token_counter("ifx) forx)"), 1);
}

#[test]
fn counts_non_overlapping_occurrences() {
    assert_eq!(count_matches("if if if ", "if "), 3);
    assert_eq!(count_matches("aaaa", "aa"), 2);
    assert_eq!(count_matches("aaa", "aa"), 1);
    assert_eq!(count_matches("", "if "), 0);
    assert_eq!(count_matches("ababab", "abab"), 1);
}

#[test]
fn recognizes_java_extension_only() {
    assert!(is_recognized("Main.java"));
    assert!(is_recognized("a.b.java"));
    assert!(is_recognized("..java"));
    assert!(!is_recognized(".java"));
    assert!(!is_recognized("java"));
    assert!(!is_recognized("Main.Java"));
    assert!(!is_recognized("Main.javax"));
    assert!(!is_recognized("Main.kt"));
}

#[test]
fn empty_file_scores_zero_lines_zero() {
    let r = score_file("Empty.java".to_string(), &Vec::new());
    assert_eq!(r.score, 0);
    assert_eq!(r.text_lines, 0);
    assert_eq!(r.file_name, "Empty.java");
}

#[test]
fn file_score_sums_line_scores() {
    let lines: Vec<String> =
        vec!["if (x) { for (y) { list.map(z); } }".to_string(), "".to_string()];
    let r = score_file("A.java".to_string(), &lines);
    assert_eq!(r.score, 9);
    assert_eq!(r.text_lines, 2);
}

#[test]
fn empty_file_is_pruned_from_parent() {
    let root = dir("root", vec![file("Empty.java", &[])], vec![]);
    assert!(input_fits(&root));
    let t = build_tree(&root);
    assert_eq!(t.files.len(), 0);
    assert_eq!(t.score, 0);
    assert_eq!(t.text_lines, 0);
}

#[test]
fn directory_without_scoring_files_is_pruned() {
    let root = dir("root", vec![], vec![dir("root/sub", vec![], vec![])]);
    assert!(input_fits(&root));
    let t = build_tree(&root);
    assert_eq!(t.directories.len(), 0);
    assert_eq!(t.score, 0);
}

#[test]
fn two_level_tree_prunes_and_aggregates() {
    let input = two_level_input();
    assert!(input_fits(&input));
    let t = build_tree(&input);
    assert_eq!(t.path, "root");
    assert_eq!(t.score, 7);
    assert_eq!(t.files.len(), 1);
    assert_eq!(t.files[0].file_name, "fileA.java");
    assert_eq!(t.files[0].score, 5);
    assert_eq!(t.files[0].text_lines, 1);
    assert_eq!(t.directories.len(), 1);
    assert_eq!(t.directories[0].path, "root/sub2");
    assert_eq!(t.directories[0].score, 2);
    assert_eq!(t.directories[0].text_lines, 2);
    assert_eq!(get_total_files_read(&t), 2);
}

#[test]
fn root_totals_recount_only_subdirectories() {
    let mut t = build_tree(&two_level_input());
    finalize_root(&mut t);
    assert_eq!(t.score, 2);
    assert_eq!(t.text_lines, 2);
    assert_eq!(t.files.len(), 1);
    assert_eq!(t.directories.len(), 1);
    assert_eq!(t.path, "root");
}

fn assert_aggregated(d: &Directory) {
    let file_scores: u64 = d.files.iter().map(|f| f.score).sum();
    let dir_scores: u64 = d.directories.iter().map(|c| c.score).sum();
    assert_eq!(d.score, file_scores + dir_scores);
    let file_lines: u64 = d.files.iter().map(|f| f.text_lines).sum();
    let dir_lines: u64 = d.directories.iter().map(|c| c.text_lines).sum();
    assert_eq!(d.text_lines, file_lines + dir_lines);
    for c in d.directories.iter() {
        assert_aggregated(c);
    }
}

fn assert_pruned(d: &Directory) {
    for f in d.files.iter() {
        assert!(f.score != 0);
    }
    for c in d.directories.iter() {
        assert!(c.score != 0);
        assert_pruned(c);
    }
}

#[test]
fn builder_keeps_aggregation_and_pruning_invariants() {
    let t = build_tree(&two_level_input());
    assert_aggregated(&t);
    assert_pruned(&t);
    assert_eq!(calculate_directory_score(&t), t.score);
    assert_eq!(calculate_directory_text_lines(&t), t.text_lines);
}

fn assert_same(a: &Directory, b: &Directory) {
    assert_eq!(a.path, b.path);
    assert_eq!(a.score, b.score);
    assert_eq!(a.text_lines, b.text_lines);
    assert_eq!(a.files.len(), b.files.len());
    for (x, y) in a.files.iter().zip(b.files.iter()) {
        assert_eq!(x.file_name, y.file_name);
        assert_eq!(x.score, y.score);
        assert_eq!(x.text_lines, y.text_lines);
    }
    assert_eq!(a.directories.len(), b.directories.len());
    for (x, y) in a.directories.iter().zip(b.directories.iter()) {
        assert_same(x, y);
    }
}

#[test]
fn scan_root_matches_build_then_finalize() {
    let input = two_level_input();
    let mut expected = build_tree(&input);
    finalize_root(&mut expected);
    let got = scan_root(&input);
    assert_same(&got, &expected);
    assert_eq!(try_total_files(&got), Some(2));
    assert_eq!(try_total_files(&got), Some(get_total_files_read(&got)));
}

#[test]
fn building_twice_gives_identical_trees() {
    let input = two_level_input();
    let t1 = build_tree(&input);
    let t2 = build_tree(&input);
    assert_same(&t1, &t2);
}

#[test]
fn pruning_cascades_up_empty_branches() {
    // root/mid/leaf holds only a zero-scoring file, so leaf, mid and the
    // whole branch vanish; root keeps nothing but its other subdirectory.
    let input = dir(
        "root",
        vec![],
        vec![
            dir(
                "root/mid",
                vec![],
                vec![dir("root/mid/leaf", vec![file("Z.java", &[])], vec![])],
            ),
            dir("root/keep", vec![file("K.java", &["k"])], vec![]),
        ],
    );
    let t = build_tree(&input);
    assert_eq!(t.directories.len(), 1);
    assert_eq!(t.directories[0].path, "root/keep");
    assert_eq!(t.score, 1);
    assert_eq!(t.text_lines, 1);
}

#[test]
fn enumeration_order_does_not_change_totals() {
    let forward = dir(
        "root",
        vec![file("A.java", &["if (a) {}"]), file("B.java", &["for (b) {}", ""])],
        vec![
            dir("root/s1", vec![file("C.java", &["x.stream()"])], vec![]),
            dir("root/s2", vec![file("D.java", &["y.expand()"])], vec![]),
        ],
    );
    let backward = dir(
        "root",
        vec![file("B.java", &["for (b) {}", ""]), file("A.java", &["if (a) {}"])],
        vec![
            dir("root/s2", vec![file("D.java", &["y.expand()"])], vec![]),
            dir("root/s1", vec![file("C.java", &["x.stream()"])], vec![]),
        ],
    );
    let t1 = build_tree(&forward);
    let t2 = build_tree(&backward);
    assert_eq!(t1.score, t2.score);
    assert_eq!(t1.text_lines, t2.text_lines);
    let mut names1: Vec<(String, u64, u64)> =
        t1.files.iter().map(|f| (f.file_name.clone(), f.score, f.text_lines)).collect();
    let mut names2: Vec<(String, u64, u64)> =
        t2.files.iter().map(|f| (f.file_name.clone(), f.score, f.text_lines)).collect();
    names1.sort();
    names2.sort();
    assert_eq!(names1, names2);
}

#[test]
fn deep_nesting_aggregates_through_levels() {
    let input = dir(
        "a",
        vec![],
        vec![dir(
            "a/b",
            vec![file("B.java", &["for for "])],
            vec![dir("a/b/c", vec![file("C.java", &["if x.map(y)"])], vec![])],
        )],
    );
    let t = build_tree(&input);
    // B.java: 1 + 3 + 3 = 7; C.java: 1 + 1 + 3 = 5.
    assert_eq!(t.score, 12);
    assert_eq!(t.directories.len(), 1);
    assert_eq!(t.directories[0].score, 12);
    assert_eq!(t.directories[0].directories[0].score, 5);
    assert_eq!(t.text_lines, 2);
    assert_eq!(get_total_files_read(&t), 2);
    assert_aggregated(&t);
    assert_pruned(&t);
}
