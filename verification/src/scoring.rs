//! The line scorer: a pure per-line complexity heuristic.
//!
//! A line's score is a base charge of one plus a fixed weight for every
//! non-overlapping occurrence of a handful of literal patterns (branching and
//! stream-pipeline tokens). Matching is plain substring counting: patterns
//! inside comments or string literals score like any other text.

use vstd::prelude::*;
use vstd::string::StrSliceExecFns;

verus! {

/// Number of non-overlapping occurrences of `pat` in `line`, scanning left to
/// right and resuming right after the end of each match (the semantics of
/// counting matches of a literal pattern in a string). An empty pattern
/// counts as zero occurrences.
pub open spec fn count_pat(line: Seq<char>, pat: Seq<char>) -> nat
    decreases line.len(),
{
    if pat.len() == 0 || line.len() < pat.len() {
        0
    } else if line.subrange(0, pat.len() as int) == pat {
        1 + count_pat(line.subrange(pat.len() as int, line.len() as int), pat)
    } else {
        count_pat(line.subrange(1, line.len() as int), pat)
    }
}

/// Complexity score of a single line: a base charge of one for the line
/// itself, plus one per `if ` and three per occurrence of each loop or
/// stream-pipeline pattern.
///
/// The base charge is deliberately unconditional: every line pays it, blank
/// lines included. (A guard of the form "trimmed line non-empty, or trimmed
/// length not exactly one" is a tautology — a trimmed line cannot be both
/// empty and one character long — so writing it out would change nothing.)
pub open spec fn line_score(line: Seq<char>) -> nat {
    1 + count_pat(line, "if "@) + 3 * count_pat(line, "for "@) + 3 * count_pat(line, ".map"@)
        + 3 * count_pat(line, ".stream"@) + 3 * count_pat(line, ".flatMap"@) + 3 * count_pat(
        line,
        ".flatMapIterable"@,
    ) + 3 * count_pat(line, ".expand"@)
}

/// Total score of a sequence of lines: the sum of their line scores.
pub open spec fn lines_score(lines: Seq<Seq<char>>) -> nat
    decreases lines.len(),
{
    if lines.len() == 0 {
        0
    } else {
        line_score(lines[0]) + lines_score(lines.drop_first())
    }
}

/// Every line scores at least its base charge of one, so a sequence of lines
/// scores at least its length; in particular a total score of zero means
/// there were no lines at all.
pub proof fn lemma_lines_score_ge_len(lines: Seq<Seq<char>>)
    ensures
        lines_score(lines) >= lines.len(),
    decreases lines.len(),
{
    if lines.len() > 0 {
        lemma_lines_score_ge_len(lines.drop_first());
    }
}

/// True of the base names this tool scores: the name ends in `.java` and has
/// at least one character before the dot, so that the dot marks an extension
/// rather than starting a hidden file's name.
pub open spec fn recognized(name: Seq<char>) -> bool {
    name.len() >= 6 && name.subrange(name.len() - 5, name.len() as int) == ".java"@
}

/// Whether `pat` occurs in `line` starting at index `i`; `n` and `m` are the
/// lengths of `line` and `pat`.
fn matches_at(line: &str, pat: &str, i: usize, n: usize, m: usize) -> (b: bool)
    requires
        n == line@.len(),
        m == pat@.len(),
        m >= 1,
        i + m <= n,
    ensures
        b == (line@.subrange(i as int, i + m) == pat@),
{
    let mut j: usize = 0;
    while j < m
        invariant
            n == line@.len(),
            m == pat@.len(),
            i + m <= n,
            j <= m,
            forall|k: int| 0 <= k < j ==> line@[i + k] == pat@[k],
        decreases m - j,
    {
        if line.get_char(i + j) != pat.get_char(j) {
            proof {
                assert(line@.subrange(i as int, i + m)[j as int] != pat@[j as int]);
            }
            return false;
        }
        j += 1;
    }
    proof {
        assert(line@.subrange(i as int, i + m) =~= pat@);
    }
    true
}

/// Number of non-overlapping occurrences of `pat` in `line`, as `count_pat`
/// counts them.
pub fn count_matches(line: &str, pat: &str) -> (c: usize)
    requires
        pat@.len() >= 1,
    ensures
        c == count_pat(line@, pat@),
{
    let n = line.unicode_len();
    let m = pat.unicode_len();
    let mut i: usize = 0;
    let mut c: usize = 0;
    proof {
        assert(line@.subrange(0, n as int) =~= line@);
    }
    while n - i >= m
        invariant
            n == line@.len(),
            m == pat@.len(),
            m >= 1,
            i <= n,
            c <= i,
            count_pat(line@, pat@) == c + count_pat(line@.subrange(i as int, n as int), pat@),
        decreases n - i,
    {
        let ghost suf = line@.subrange(i as int, n as int);
        proof {
            assert(suf.subrange(0, m as int) =~= line@.subrange(i as int, i + m));
        }
        if matches_at(line, pat, i, n, m) {
            proof {
                assert(count_pat(suf, pat@) == 1 + count_pat(
                    suf.subrange(m as int, suf.len() as int),
                    pat@,
                ));
                assert(suf.subrange(m as int, suf.len() as int) =~= line@.subrange(
                    i + m,
                    n as int,
                ));
            }
            c += 1;
            i += m;
        } else {
            proof {
                assert(count_pat(suf, pat@) == count_pat(
                    suf.subrange(1, suf.len() as int),
                    pat@,
                ));
                assert(suf.subrange(1, suf.len() as int) =~= line@.subrange(i + 1, n as int));
            }
            i += 1;
        }
    }
    proof {
        assert(count_pat(line@.subrange(i as int, n as int), pat@) == 0);
    }
    c
}

/// Complexity score of one line, exactly `line_score`, in an integer type
/// wide enough that no line can overflow it: each pattern count is at most
/// the line's length.
pub(crate) fn line_score_total(line: &str) -> (score: u128)
    ensures
        score == line_score(line@),
{
    proof {
        reveal_strlit("if ");
        reveal_strlit("for ");
        reveal_strlit(".map");
        reveal_strlit(".stream");
        reveal_strlit(".flatMap");
        reveal_strlit(".flatMapIterable");
        reveal_strlit(".expand");
    }
    let c_if = count_matches(line, "if ");
    let c_for = count_matches(line, "for ");
    let c_map = count_matches(line, ".map");
    let c_stream = count_matches(line, ".stream");
    let c_flat_map = count_matches(line, ".flatMap");
    let c_flat_map_iterable = count_matches(line, ".flatMapIterable");
    let c_expand = count_matches(line, ".expand");
    1 + c_if as u128 + 3 * (c_for as u128) + 3 * (c_map as u128) + 3 * (c_stream as u128) + 3 * (
    c_flat_map as u128) + 3 * (c_flat_map_iterable as u128) + 3 * (c_expand as u128)
}

/// Complexity score of one line of text.
pub fn token_counter(line: &str) -> (score: u64)
    requires
        line_score(line@) <= u64::MAX,
    ensures
        score == line_score(line@),
{
    let total = line_score_total(line);
    total as u64
}

/// Whether a base name is one this tool scores (its extension is exactly
/// `java`, case-sensitively).
pub fn is_recognized(name: &str) -> (b: bool)
    ensures
        b == recognized(name@),
{
    proof {
        reveal_strlit(".java");
    }
    let n = name.unicode_len();
    if n < 6 {
        return false;
    }
    matches_at(name, ".java", n - 5, n, 5)
}

} // verus!
