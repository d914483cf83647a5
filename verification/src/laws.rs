//! Properties of the builder that hold for every input tree, stated and
//! proved once and for all.

use vstd::prelude::*;
use vstd::multiset::Multiset;
use crate::builder::{
    build_spec, build_subs, file_record_of, lemma_build_subs_preserve, lemma_records_preserve,
    records_of,
};
use crate::model::{
    dir_pruned, dir_wf, dirs_pruned, dirs_wf, fs_dir_lines, fs_dir_score, fs_dirs_lines,
    fs_dirs_score, fs_file_score, fs_files_lines, fs_files_score, DirV, FsDirV, FsFileV,
};

verus! {

/// Aggregation invariant: in every tree the builder produces, each node's
/// stored score and line count equal the sum of its own files' stored values
/// and its subdirectories' stored totals, recursively, with exact equality.
pub proof fn lemma_builder_aggregation(d: FsDirV)
    ensures
        dir_wf(build_spec(d)),
    decreases d,
{
    lemma_records_preserve(d.files);
    lemma_build_subs_preserve(d.subdirs);
    lemma_builder_aggregation_subs(d.subdirs);
}

/// `lemma_builder_aggregation`, for every node that a sequence of input
/// directories produces.
pub proof fn lemma_builder_aggregation_subs(s: Seq<FsDirV>)
    ensures
        dirs_wf(build_subs(s)),
    decreases s,
{
    if s.len() > 0 {
        let t = s.subrange(1, s.len() as int);
        lemma_builder_aggregation_subs(t);
        lemma_builder_aggregation(s[0]);
        let c = build_spec(s[0]);
        let rest = build_subs(t);
        if c.score != 0 {
            let w = seq![c] + rest;
            assert(w[0] == c);
            assert(w.subrange(1, w.len() as int) =~= rest);
        }
    }
}

/// Every record the scorer keeps has a nonzero score: zero-score files are
/// pruned.
pub proof fn lemma_records_pruned(fs: Seq<FsFileV>)
    ensures
        forall|i: int| 0 <= i < records_of(fs).len() ==> #[trigger] records_of(fs)[i].score != 0,
    decreases fs.len(),
{
    if fs.len() > 0 {
        lemma_records_pruned(fs.drop_first());
        let r = file_record_of(fs[0]);
        let rest = records_of(fs.drop_first());
        if r.score != 0 {
            let w = seq![r] + rest;
            assert forall|i: int| 0 <= i < w.len() implies #[trigger] w[i].score != 0 by {
                if i > 0 {
                    assert(w[i] == rest[i - 1]);
                }
            }
        }
    }
}

/// Pruning law: no file record and no directory node in a tree the builder
/// produces has a zero score.
pub proof fn lemma_builder_pruned(d: FsDirV)
    ensures
        dir_pruned(build_spec(d)),
    decreases d,
{
    lemma_records_pruned(d.files);
    lemma_builder_pruned_subs(d.subdirs);
}

/// `lemma_builder_pruned`, for every node that a sequence of input
/// directories produces.
pub proof fn lemma_builder_pruned_subs(s: Seq<FsDirV>)
    ensures
        forall|i: int| 0 <= i < build_subs(s).len() ==> #[trigger] build_subs(s)[i].score != 0,
        dirs_pruned(build_subs(s)),
    decreases s,
{
    if s.len() > 0 {
        let t = s.subrange(1, s.len() as int);
        lemma_builder_pruned_subs(t);
        lemma_builder_pruned(s[0]);
        let c = build_spec(s[0]);
        let rest = build_subs(t);
        if c.score != 0 {
            let w = seq![c] + rest;
            assert(w[0] == c);
            assert(w.subrange(1, w.len() as int) =~= rest);
            assert forall|i: int| 0 <= i < w.len() implies #[trigger] w[i].score != 0 by {
                if i > 0 {
                    assert(w[i] == rest[i - 1]);
                }
            }
        }
    }
}

/// Sum of a weight over a sequence's elements.
pub open spec fn seq_weight<A>(s: Seq<A>, w: spec_fn(A) -> nat) -> nat
    decreases s.len(),
{
    if s.len() == 0 {
        0
    } else {
        w(s[0]) + seq_weight(s.drop_first(), w)
    }
}

/// A weighted sum splits off any one element, not just the first.
proof fn lemma_seq_weight_remove<A>(s: Seq<A>, w: spec_fn(A) -> nat, j: int)
    requires
        0 <= j < s.len(),
    ensures
        seq_weight(s, w) == w(s[j]) + seq_weight(s.remove(j), w),
    decreases s.len(),
{
    if j == 0 {
        assert(s.remove(0) =~= s.drop_first());
    } else {
        let t = s.drop_first();
        lemma_seq_weight_remove(t, w, j - 1);
        assert(s.remove(j).drop_first() =~= t.remove(j - 1));
        assert(s.remove(j)[0] == s[0]);
    }
}

/// A weighted sum only depends on which elements a sequence holds, with
/// multiplicity, never on their order.
proof fn lemma_seq_weight_permutation<A>(a: Seq<A>, b: Seq<A>, w: spec_fn(A) -> nat)
    requires
        a.to_multiset() == b.to_multiset(),
    ensures
        seq_weight(a, w) == seq_weight(b, w),
    decreases a.len(),
{
    broadcast use vstd::seq_lib::group_to_multiset_ensures;

    if a.len() == 0 {
        assert(b.to_multiset().len() == 0);
    } else {
        let x = a[0];
        assert(a.contains(x));
        assert(b.to_multiset().count(x) > 0);
        assert(b.contains(x));
        let j = choose|j: int| 0 <= j < b.len() && b[j] == x;
        lemma_seq_weight_remove(b, w, j);
        assert(a.drop_first() =~= a.remove(0));
        assert(a.remove(0).to_multiset() == a.to_multiset().remove(x));
        assert(b.remove(j).to_multiset() == b.to_multiset().remove(x));
        lemma_seq_weight_permutation(a.drop_first(), b.remove(j), w);
    }
}

/// The weight that sums file scores.
pub open spec fn file_score_weight() -> spec_fn(FsFileV) -> nat {
    |f: FsFileV| fs_file_score(f)
}

/// The weight that sums file line counts.
pub open spec fn file_lines_weight() -> spec_fn(FsFileV) -> nat {
    |f: FsFileV| f.lines.len()
}

/// The weight that sums directory total scores.
pub open spec fn dir_score_weight() -> spec_fn(FsDirV) -> nat {
    |d: FsDirV| fs_dir_score(d)
}

/// The weight that sums directory total line counts.
pub open spec fn dir_lines_weight() -> spec_fn(FsDirV) -> nat {
    |d: FsDirV| fs_dir_lines(d)
}

proof fn lemma_fs_files_sums_are_weights(s: Seq<FsFileV>)
    ensures
        fs_files_score(s) == seq_weight(s, file_score_weight()),
        fs_files_lines(s) == seq_weight(s, file_lines_weight()),
    decreases s.len(),
{
    if s.len() > 0 {
        lemma_fs_files_sums_are_weights(s.drop_first());
    }
}

proof fn lemma_fs_dirs_sums_are_weights(s: Seq<FsDirV>)
    ensures
        fs_dirs_score(s) == seq_weight(s, dir_score_weight()),
        fs_dirs_lines(s) == seq_weight(s, dir_lines_weight()),
    decreases s.len(),
{
    if s.len() > 0 {
        assert(s.subrange(1, s.len() as int) =~= s.drop_first());
        lemma_fs_dirs_sums_are_weights(s.drop_first());
    }
}

/// Enumeration order does not matter to the totals: two inputs whose file
/// lists and subdirectory lists hold the same entries, in any order, have
/// the same total score and total line count — and so, by the builder's
/// contract, trees built from them carry the same aggregates at the root.
pub proof fn lemma_totals_ignore_enumeration_order(a: FsDirV, b: FsDirV)
    requires
        a.files.to_multiset() == b.files.to_multiset(),
        a.subdirs.to_multiset() == b.subdirs.to_multiset(),
    ensures
        fs_dir_score(a) == fs_dir_score(b),
        fs_dir_lines(a) == fs_dir_lines(b),
{
    lemma_fs_files_sums_are_weights(a.files);
    lemma_fs_files_sums_are_weights(b.files);
    lemma_fs_dirs_sums_are_weights(a.subdirs);
    lemma_fs_dirs_sums_are_weights(b.subdirs);
    lemma_seq_weight_permutation(a.files, b.files, file_score_weight());
    lemma_seq_weight_permutation(a.files, b.files, file_lines_weight());
    lemma_seq_weight_permutation(a.subdirs, b.subdirs, dir_score_weight());
    lemma_seq_weight_permutation(a.subdirs, b.subdirs, dir_lines_weight());
}

/// Putting one element in front of a sequence puts it into the multiset.
proof fn lemma_cons_to_multiset<A>(x: A, s: Seq<A>)
    ensures
        (seq![x] + s).to_multiset() == s.to_multiset().insert(x),
{
    broadcast use vstd::seq_lib::group_to_multiset_ensures;
    broadcast use vstd::multiset::group_multiset_axioms;

    vstd::seq_lib::lemma_multiset_commutative(seq![x], s);
    assert(seq![x] =~= Seq::<A>::empty().push(x));
    assert(Seq::<A>::empty().push(x).to_multiset() =~= Seq::<A>::empty().to_multiset().insert(x));
    assert forall|y: A| Seq::<A>::empty().to_multiset().count(y) == 0 by {
        assert(!Seq::<A>::empty().contains(y));
    }
    assert(Seq::<A>::empty().to_multiset() =~= Multiset::<A>::empty());
    assert((seq![x] + s).to_multiset() =~= s.to_multiset().insert(x));
}

/// Removing one input file removes its record, if the record was kept.
proof fn lemma_records_of_remove(s: Seq<FsFileV>, j: int)
    requires
        0 <= j < s.len(),
    ensures
        records_of(s).to_multiset() == (if file_record_of(s[j]).score != 0 {
            records_of(s.remove(j)).to_multiset().insert(file_record_of(s[j]))
        } else {
            records_of(s.remove(j)).to_multiset()
        }),
    decreases s.len(),
{
    broadcast use vstd::multiset::group_multiset_axioms;

    let r = file_record_of(s[j]);
    if j == 0 {
        assert(s.remove(0) =~= s.drop_first());
        if r.score != 0 {
            lemma_cons_to_multiset(r, records_of(s.drop_first()));
        }
    } else {
        let t = s.drop_first();
        lemma_records_of_remove(t, j - 1);
        assert(t[j - 1] == s[j]);
        let r0 = file_record_of(s[0]);
        assert(s.remove(j).drop_first() =~= t.remove(j - 1));
        assert(s.remove(j)[0] == s[0]);
        if r0.score != 0 {
            lemma_cons_to_multiset(r0, records_of(t));
            lemma_cons_to_multiset(r0, records_of(t.remove(j - 1)));
            if r.score != 0 {
                assert(records_of(t.remove(j - 1)).to_multiset().insert(r).insert(r0)
                    =~= records_of(t.remove(j - 1)).to_multiset().insert(r0).insert(r));
            }
        }
    }
}

/// Enumeration order does not matter to the surviving records either: two
/// file lists holding the same files, in any order, keep the same records,
/// as a multiset.
pub proof fn lemma_records_ignore_enumeration_order(a: Seq<FsFileV>, b: Seq<FsFileV>)
    requires
        a.to_multiset() == b.to_multiset(),
    ensures
        records_of(a).to_multiset() == records_of(b).to_multiset(),
    decreases a.len(),
{
    broadcast use vstd::seq_lib::group_to_multiset_ensures;

    if a.len() == 0 {
        assert(b.to_multiset().len() == 0);
    } else {
        let x = a[0];
        assert(a.contains(x));
        assert(b.to_multiset().count(x) > 0);
        assert(b.contains(x));
        let j = choose|j: int| 0 <= j < b.len() && b[j] == x;
        assert(a.drop_first() =~= a.remove(0));
        assert(a.remove(0).to_multiset() == a.to_multiset().remove(x));
        assert(b.remove(j).to_multiset() == b.to_multiset().remove(x));
        lemma_records_ignore_enumeration_order(a.drop_first(), b.remove(j));
        lemma_records_of_remove(b, j);
        let r = file_record_of(x);
        if r.score != 0 {
            lemma_cons_to_multiset(r, records_of(a.drop_first()));
        }
    }
}

/// Idempotence: the builder is a function of the input tree alone, so two
/// runs over the same unchanged input produce the same weighted tree — the
/// same structure, scores and line counts at every level.
pub proof fn lemma_builder_idempotent(d: FsDirV, r1: DirV, r2: DirV)
    requires
        r1 == build_spec(d),
        r2 == build_spec(d),
    ensures
        r1 == r2,
{
}

} // verus!
