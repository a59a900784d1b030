//! The cheap rejection test run before alignment.  It never rejects a
//! haystack that could still match (false negatives are forbidden), and for
//! an unlimited or zero typo budget it is exact.

use vstd::prelude::*;

use crate::model::bm_at;
use crate::model::ci_eq;
use crate::model::feasible;
use crate::model::lemma_bm_drop;
use crate::model::lemma_bm_range;
use crate::text::ci_eq_exec;

verus! {

/// The greedy left-to-right subsequence test, as a spec: can `n[i..]` be
/// matched, character by character and case-insensitively, inside `h[j..]`?
pub open spec fn subseq_at(n: Seq<char>, h: Seq<char>, i: int, j: int) -> bool
    decreases h.len() - j,
{
    if i >= n.len() {
        true
    } else if j < 0 || j >= h.len() || i < 0 {
        false
    } else if ci_eq(n[i], h[j]) {
        subseq_at(n, h, i + 1, j + 1)
    } else {
        subseq_at(n, h, i, j + 1)
    }
}

/// The greedy subsequence test succeeds exactly when every needle character
/// can be matched, i.e. when the best-match count reaches the needle length.
pub proof fn lemma_subseq_iff_bm(n: Seq<char>, h: Seq<char>, i: int, j: int)
    requires
        0 <= i <= n.len(),
        0 <= j <= h.len(),
    ensures
        subseq_at(n, h, i, j) <==> bm_at(n, h, i, j) == n.len() - i,
    decreases h.len() - j,
{
    if i >= n.len() {
    } else if j >= h.len() {
    } else {
        lemma_subseq_iff_bm(n, h, i + 1, j + 1);
        lemma_subseq_iff_bm(n, h, i, j + 1);
        lemma_bm_range(n, h, i, j);
        lemma_bm_range(n, h, i + 1, j + 1);
        lemma_bm_range(n, h, i, j + 1);
        if ci_eq(n[i], h[j]) {
            lemma_bm_drop(n, h, i, j + 1);
        }
    }
}

/// Executable greedy subsequence test.
pub fn subseq_check(needle: &Vec<char>, haystack: &Vec<char>) -> (b: bool)
    ensures
        b == subseq_at(needle@, haystack@, 0, 0),
{
    let mut i: usize = 0;
    let mut j: usize = 0;
    while i < needle.len() && j < haystack.len()
        invariant
            i <= needle@.len(),
            j <= haystack@.len(),
            subseq_at(needle@, haystack@, 0, 0) == subseq_at(
                needle@,
                haystack@,
                i as int,
                j as int,
            ),
        decreases haystack@.len() - j,
    {
        if ci_eq_exec(needle[i], haystack[j]) {
            i = i + 1;
        }
        j = j + 1;
    }
    i == needle.len()
}

/// "Possibly matches": a conservative, allocation-free screen.  A `false`
/// answer is definitive (the haystack cannot match); a `true` answer only
/// means the full alignment is worth running.  For `max_typos == Some(0)`
/// the answer is exact.
pub fn prefilter_pass(needle: &Vec<char>, haystack: &Vec<char>, max_typos: Option<u16>) -> (b: bool)
    ensures
        feasible(needle@, haystack@, max_typos) ==> b,
        max_typos == Some(0u16) ==> b == feasible(needle@, haystack@, max_typos),
{
    proof {
        lemma_bm_range(needle@, haystack@, 0, 0);
    }
    if needle.len() > haystack.len() {
        return false;
    }
    match max_typos {
        None => true,
        Some(k) => {
            if k == 0 {
                let r = subseq_check(needle, haystack);
                proof {
                    lemma_subseq_iff_bm(needle@, haystack@, 0, 0);
                }
                r
            } else {
                true
            }
        },
    }
}

} // verus!
