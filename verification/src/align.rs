//! The aligner: dynamic programs over (needle index, haystack index) that
//! decide exactly whether a haystack can match within the typo budget, and
//! return a highest-scoring alignment under the weighted model together
//! with its exact score.

use vstd::prelude::*;

use crate::MAX_LEN;
use crate::model::alignment_score;
use crate::model::bm_at;
use crate::model::contrib_at;
use crate::model::feasible;
use crate::model::gap_cost;
use crate::model::is_alignment;
use crate::model::is_lower;
use crate::model::is_upper;
use crate::model::lemma_alignment_needs_len;
use crate::model::lemma_bm_range;
use crate::model::lemma_bm_upper;
use crate::model::lemma_pre_suf_typos;
use crate::model::lemma_suf_counts;
use crate::model::lemma_score_pre_suf;
use crate::model::lemma_typos_pre_push;
use crate::model::match_bonus;
use crate::model::optimal_result;
use crate::model::char_base;
use crate::model::lex_le;
use crate::optimal::NEG_INF;
use crate::optimal::attains_best;
use crate::optimal::best_from;
use crate::optimal::build_score_table;
use crate::optimal::lemma_best_bounds;
use crate::optimal::lemma_best_from_upper;
use crate::optimal::lemma_score_suf_bound;
use crate::optimal::score_traceback;
use crate::model::score_pre;
use crate::model::typo_count;
use crate::model::typos_pre;
use crate::model::within_budget;
use crate::scoring::Scoring;
use crate::text::ci_eq_exec;
use crate::text::seq_eq_exec;

verus! {

/// The filled best-match table: entry `[a][b]` holds `bm_at` for needle
/// suffix `n - a` and haystack suffix `b`.
pub open spec fn bm_table_ok(t: Seq<Vec<i64>>, n: Seq<char>, h: Seq<char>) -> bool {
    &&& t.len() == n.len() + 1
    &&& forall|a: int| 0 <= a < t.len() ==> (#[trigger] t[a])@.len() == h.len() + 1
    &&& forall|a: int, b: int|
        0 <= a < t.len() && 0 <= b <= h.len() ==> #[trigger] t[a]@[b] == bm_at(
            n,
            h,
            n.len() - a,
            b,
        )
}

/// Build the best-match table by filling rows from the last needle suffix
/// backwards.
fn build_bm_table(needle: &Vec<char>, hay: &Vec<char>) -> (t: Vec<Vec<i64>>)
    requires
        needle@.len() <= MAX_LEN,
        hay@.len() <= MAX_LEN,
    ensures
        bm_table_ok(t@, needle@, hay@),
{
    let n = needle.len();
    let m = hay.len();
    let mut t: Vec<Vec<i64>> = Vec::new();
    let mut a: usize = 0;
    while a <= n
        invariant
            n == needle@.len(),
            m == hay@.len(),
            n <= MAX_LEN,
            m <= MAX_LEN,
            a <= n + 1,
            t@.len() == a,
            forall|x: int| 0 <= x < a ==> (#[trigger] t@[x])@.len() == m + 1,
            forall|x: int, b: int|
                0 <= x < a && 0 <= b <= m ==> #[trigger] t@[x]@[b] == bm_at(
                    needle@,
                    hay@,
                    n - x,
                    b,
                ),
        decreases n + 1 - a,
    {
        let i = n - a;
        let mut row: Vec<i64> = Vec::new();
        let mut z: usize = 0;
        while z <= m
            invariant
                m <= MAX_LEN,
                row@.len() == z,
                z <= m + 1,
            decreases m + 1 - z,
        {
            row.push(0);
            z = z + 1;
        }
        let mut j: usize = m + 1;
        while j > 0
            invariant
                n == needle@.len(),
                m == hay@.len(),
                n <= MAX_LEN,
                m <= MAX_LEN,
                a <= n,
                i == n - a,
                j <= m + 1,
                row@.len() == m + 1,
                t@.len() == a,
                forall|x: int| 0 <= x < a ==> (#[trigger] t@[x])@.len() == m + 1,
                forall|x: int, b: int|
                    0 <= x < a && 0 <= b <= m ==> #[trigger] t@[x]@[b] == bm_at(
                        needle@,
                        hay@,
                        n - x,
                        b,
                    ),
                forall|b: int| j <= b <= m ==> #[trigger] row@[b] == bm_at(needle@, hay@, i as int, b),
            decreases j,
        {
            j = j - 1;
            let v: i64;
            if i == n {
                v = 0;
            } else if m - j < n - i {
                v = -1;
            } else {
                proof {
                    lemma_bm_range(needle@, hay@, i as int + 1, j as int + 1);
                }
                let d: i64 = if ci_eq_exec(needle[i], hay[j]) {
                    1
                } else {
                    0
                };
                proof {
                    assert(t@[a - 1]@[j + 1] == bm_at(needle@, hay@, i as int + 1, j as int + 1));
                }
                let pair = d + t[a - 1][j + 1];
                let skip = row[j + 1];
                proof {
                    lemma_bm_range(needle@, hay@, i as int, j as int + 1);
                }
                v = if skip > pair {
                    skip
                } else {
                    pair
                };
            }
            row[j] = v;
        }
        t.push(row);
        a = a + 1;
    }
    t
}

/// Recover, from the best-match table, an alignment realising the maximal
/// number of matched characters — hence the minimal number of typos.
fn bm_witness(needle: &Vec<char>, hay: &Vec<char>, t: &Vec<Vec<i64>>) -> (w: Vec<usize>)
    requires
        needle@.len() <= hay@.len(),
        needle@.len() <= MAX_LEN,
        hay@.len() <= MAX_LEN,
        bm_table_ok(t@, needle@, hay@),
    ensures
        is_alignment(needle@, hay@, w@),
        typo_count(needle@, hay@, w@) == needle@.len() - bm_at(needle@, hay@, 0, 0),
{
    let n = needle.len();
    let m = hay.len();
    let mut w: Vec<usize> = Vec::new();
    let mut i: usize = 0;
    let mut j: usize = 0;
    let ghost mut matched: int = 0int;
    proof {
        lemma_bm_range(needle@, hay@, 0, 0);
    }
    while i < n
        invariant
            n == needle@.len(),
            m == hay@.len(),
            n <= m,
            n <= MAX_LEN,
            m <= MAX_LEN,
            bm_table_ok(t@, needle@, hay@),
            i <= n,
            j <= m,
            m - j >= n - i,
            w@.len() == i,
            forall|x: int| 0 <= x < i ==> (#[trigger] w@[x]) < hay@.len(),
            forall|x: int| 0 < x < i ==> w@[x - 1] < #[trigger] w@[x],
            i > 0 ==> w@[i - 1] < j,
            matched + bm_at(needle@, hay@, i as int, j as int) == bm_at(needle@, hay@, 0, 0),
            typos_pre(needle@, hay@, w@, i as int) == i - matched,
        decreases m - j,
    {
        let d: i64 = if ci_eq_exec(needle[i], hay[j]) {
            1
        } else {
            0
        };
        proof {
            lemma_bm_range(needle@, hay@, i as int + 1, j as int + 1);
            lemma_bm_range(needle@, hay@, i as int, j as int);
            assert(t@[n - (i + 1)]@[j + 1] == bm_at(needle@, hay@, i as int + 1, j as int + 1));
        }
        let pairv = d + t[n - (i + 1)][j + 1];
        let cur = t[n - i][j];
        if cur == pairv {
            proof {
                lemma_typos_pre_push(needle@, hay@, w@, j, i as int);
            }
            w.push(j);
            proof {
                matched = matched + d as int;
            }
            i = i + 1;
            j = j + 1;
        } else {
            proof {
                // the recurrence leaves only the skip branch
                assert(bm_at(needle@, hay@, i as int, j as int) == bm_at(
                    needle@,
                    hay@,
                    i as int,
                    j as int + 1,
                ));
                lemma_bm_range(needle@, hay@, i as int, j as int + 1);
            }
            j = j + 1;
        }
    }
    w
}

/// Executable ASCII upper-case test.
fn is_upper_exec(c: char) -> (r: bool)
    ensures
        r == is_upper(c),
{
    let u = c as u32;
    65 <= u && u <= 90
}

/// Executable ASCII lower-case test.
fn is_lower_exec(c: char) -> (r: bool)
    ensures
        r == is_lower(c),
{
    let u = c as u32;
    97 <= u && u <= 122
}

/// Whether `c` is one of the configured delimiters.
fn is_delim_exec(s: &Scoring, c: char) -> (r: bool)
    ensures
        r == s.delimiters@.contains(c),
{
    let mut i: usize = 0;
    while i < s.delimiters.len()
        invariant
            i <= s.delimiters@.len(),
            forall|x: int| 0 <= x < i ==> s.delimiters@[x] != c,
        decreases s.delimiters@.len() - i,
    {
        if s.delimiters[i] == c {
            return true;
        }
        i = i + 1;
    }
    false
}

/// Cost of a gap of `g` skipped haystack characters.
pub(crate) fn gap_cost_exec(s: &Scoring, g: usize) -> (r: i64)
    requires
        g <= MAX_LEN,
    ensures
        r == gap_cost(*s, g as int),
        0 <= r <= 65535int * (g as int),
{
    if g == 0 {
        0
    } else {
        proof {
            assert(0 <= ((g - 1) as int) * (s.gap_extend_penalty as int) <= ((g - 1) as int)
                * 65535 <= 0x100000int * 65535) by (nonlinear_arith)
                requires
                    0 <= (g - 1) as int <= 0x100000int,
                    0 <= s.gap_extend_penalty as int <= 65535,
            ;
        }
        let ext = ((g - 1) as i64) * (s.gap_extend_penalty as i64);
        s.gap_open_penalty as i64 + ext
    }
}

/// Worth of placing needle character `i` at haystack position `p`, without
/// the gap term, exactly as `char_base`.
pub(crate) fn char_base_exec(s: &Scoring, needle: &Vec<char>, hay: &Vec<char>, i: usize, p: usize) -> (r: i64)
    requires
        i < needle@.len(),
        p < hay@.len(),
    ensures
        r == char_base(*s, needle@, hay@, i as int, p as int),
        -65535 <= r <= 7 * 65535,
{
    if ci_eq_exec(needle[i], hay[p]) {
        let mut b: i64 = s.match_score as i64;
        if p == 0 {
            b = b + s.prefix_bonus as i64;
        } else {
            let prev = hay[p - 1];
            let delim = is_delim_exec(s, prev);
            if delim || (is_lower_exec(prev) && is_upper_exec(hay[p])) {
                b = b + s.offset_prefix_bonus as i64;
            }
            if delim {
                b = b + s.delimiter_bonus as i64;
            }
        }
        if is_upper_exec(hay[p]) && is_lower_exec(needle[i]) {
            b = b + s.capitalization_bonus as i64;
        }
        if needle[i] == hay[p] {
            b = b + s.matching_case_bonus as i64;
        }
        proof {
            assert(b == s.match_score as int + match_bonus(*s, needle@, hay@, i as int, p as int));
        }
        b
    } else {
        -(s.mismatch_penalty as i64)
    }
}

/// Contribution of aligned needle character `i`, exactly as `contrib_at`.
fn contrib_exec(s: &Scoring, needle: &Vec<char>, hay: &Vec<char>, idx: &Vec<usize>, i: usize) -> (r:
    i64)
    requires
        is_alignment(needle@, hay@, idx@),
        i < idx@.len(),
        hay@.len() <= MAX_LEN,
    ensures
        r == contrib_at(*s, needle@, hay@, idx@, i as int),
        r <= 7 * 65535,
        i == 0 ==> r >= -65535,
        i > 0 ==> r >= -65535int * (idx@[i as int] - idx@[i as int - 1]),
{
    let p = idx[i];
    let base = char_base_exec(s, needle, hay, i, p);
    if i == 0 {
        base
    } else {
        let g = p - idx[i - 1] - 1;
        let cost = gap_cost_exec(s, g);
        base - cost
    }
}

/// Score an alignment under the weight table, exactly as `alignment_score`.
pub fn eval_score(s: &Scoring, needle: &Vec<char>, hay: &Vec<char>, idx: &Vec<usize>) -> (sc: i64)
    requires
        is_alignment(needle@, hay@, idx@),
        needle@.len() <= MAX_LEN,
        hay@.len() <= MAX_LEN,
    ensures
        sc == alignment_score(*s, needle@, hay@, idx@),
{
    let n = needle.len();
    let mut acc: i64 = 0;
    let mut i: usize = 0;
    while i < n
        invariant
            n == needle@.len(),
            n <= MAX_LEN,
            hay@.len() <= MAX_LEN,
            is_alignment(needle@, hay@, idx@),
            i <= n,
            acc == score_pre(*s, needle@, hay@, idx@, i as int),
            i == 0 ==> acc == 0,
            i > 0 ==> -65535int * (7 * i + idx@[i as int - 1] + 1) <= acc <= 65535int * (7 * i
                + idx@[i as int - 1] + 1),
        decreases n - i,
    {
        let c = contrib_exec(s, needle, hay, idx, i);
        proof {
            if i > 0 {
                assert(idx@[i as int] < hay@.len());
                assert(idx@[i as int - 1] < idx@[i as int]);
            }
            assert(-65535int * (7 * (i + 1) + idx@[i as int] + 1) <= acc + c <= 65535int * (7 * (i
                + 1) + idx@[i as int] + 1));
        }
        acc = acc + c;
        i = i + 1;
    }
    proof {
        if n > 0 {
            assert(-65535int * (7 * n + idx@[n - 1] + 1) <= acc <= 65535int * (7 * n + idx@[n - 1]
                + 1));
        }
    }
    if needle.len() > 0 && seq_eq_exec(needle, hay) {
        proof {
            assert(0 <= (needle@.len() as int) * (s.exact_match_bonus as int) <= 0x100000int
                * 65535) by (nonlinear_arith)
                requires
                    0 <= needle@.len() as int <= 0x100000int,
                    0 <= s.exact_match_bonus as int <= 65535,
            ;
        }
        acc = acc + (needle.len() as i64) * (s.exact_match_bonus as i64);
    }
    acc
}

/// Align one needle/haystack pair: decide feasibility exactly, and on
/// success return the canonical optimum — the lexicographically least of
/// the highest-scoring alignments within the typo budget — together with
/// its exact score, so the result is a pure function of the inputs.
pub fn match_one(needle: &Vec<char>, haystack: &Vec<char>, scoring: &Scoring, max_typos: Option<
    u16,
>) -> (r: Option<(i64, Vec<usize>)>)
    requires
        needle@.len() <= MAX_LEN,
        haystack@.len() <= MAX_LEN,
    ensures
        (r is Some) == feasible(needle@, haystack@, max_typos),
        r matches Some(p) ==> optimal_result(
            *scoring,
            needle@,
            haystack@,
            max_typos,
            p.1@,
            p.0 as int,
        ),
        r is None ==> forall|idx: Seq<usize>|
            is_alignment(needle@, haystack@, idx) ==> !within_budget(
                needle@,
                haystack@,
                idx,
                max_typos,
            ),
        needle@.len() == 0 ==> (r matches Some(p) && p.0 == 0 && p.1@.len() == 0),
{
    let n = needle.len();
    let m = haystack.len();
    if n > m {
        proof {
            assert forall|idx: Seq<usize>|
                is_alignment(needle@, haystack@, idx) implies !within_budget(
                needle@,
                haystack@,
                idx,
                max_typos,
            ) by {
                lemma_alignment_needs_len(needle@, haystack@, idx);
            }
        }
        return None;
    }
    let t = build_bm_table(needle, haystack);
    let bm00 = t[n][0];
    proof {
        lemma_bm_range(needle@, haystack@, 0, 0);
    }
    if n > 0 && bm00 < 1 {
        proof {
            assert forall|idx: Seq<usize>|
                is_alignment(needle@, haystack@, idx) implies !within_budget(
                needle@,
                haystack@,
                idx,
                max_typos,
            ) by {
                lemma_bm_upper(needle@, haystack@, idx, 0, 0);
                lemma_suf_counts(needle@, haystack@, idx, 0);
                lemma_pre_suf_typos(needle@, haystack@, idx, 0);
            }
        }
        return None;
    }
    if let Some(k) = max_typos {
        if (n as i64) - bm00 > (k as i64) {
            proof {
                assert forall|idx: Seq<usize>|
                    is_alignment(needle@, haystack@, idx) implies !within_budget(
                    needle@,
                    haystack@,
                    idx,
                    max_typos,
                ) by {
                    lemma_bm_upper(needle@, haystack@, idx, 0, 0);
                    lemma_suf_counts(needle@, haystack@, idx, 0);
                    lemma_pre_suf_typos(needle@, haystack@, idx, 0);
                }
            }
            return None;
        }
    }
    let w = bm_witness(needle, haystack, &t);
    if n == 0 {
        let sc = eval_score(scoring, needle, haystack, &w);
        proof {
            assert forall|other: Seq<usize>|
                is_alignment(needle@, haystack@, other) && within_budget(
                    needle@,
                    haystack@,
                    other,
                    max_typos,
                ) implies alignment_score(*scoring, needle@, haystack@, other) <= sc as int && lex_le(
                w@,
                other,
            ) by {
                assert(other.len() == 0);
                assert(other =~= w@);
            }
        }
        return Some((sc, w));
    }
    let bcap: usize = match max_typos {
        None => n - 1,
        Some(k) => if (k as usize) < n - 1 {
            k as usize
        } else {
            n - 1
        },
    };
    proof {
        // the minimal-typo alignment fits the budget, so the optimum is real
        lemma_pre_suf_typos(needle@, haystack@, w@, 0);
        lemma_best_from_upper(*scoring, needle@, haystack@, w@, 0, -1, bcap as int);
        lemma_score_suf_bound(*scoring, needle@, haystack@, w@, 0, -1);
        lemma_best_bounds(*scoring, needle@, haystack@, 0, -1, bcap as int);
        assert(best_from(*scoring, needle@, haystack@, 0, -1, bcap as int)
            != crate::optimal::NEG_INF as int);
    }
    let tab = build_score_table(scoring, needle, haystack, bcap);
    let best = score_traceback(scoring, needle, haystack, &tab, bcap);
    let sc = eval_score(scoring, needle, haystack, &best);
    proof {
        lemma_score_pre_suf(*scoring, needle@, haystack@, best@, 0);
        assert forall|other: Seq<usize>|
            is_alignment(needle@, haystack@, other) && within_budget(
                needle@,
                haystack@,
                other,
                max_typos,
            ) implies alignment_score(*scoring, needle@, haystack@, other) <= sc as int by {
            lemma_pre_suf_typos(needle@, haystack@, other, 0);
            lemma_best_from_upper(*scoring, needle@, haystack@, other, 0, -1, bcap as int);
            lemma_score_pre_suf(*scoring, needle@, haystack@, other, 0);
        }
        assert forall|other: Seq<usize>|
            is_alignment(needle@, haystack@, other) && within_budget(
                needle@,
                haystack@,
                other,
                max_typos,
            ) && alignment_score(*scoring, needle@, haystack@, other) == sc as int implies lex_le(
            best@,
            other,
        ) by {
            lemma_pre_suf_typos(needle@, haystack@, other, 0);
            lemma_score_pre_suf(*scoring, needle@, haystack@, other, 0);
            assert(score_pre(*scoring, needle@, haystack@, other, needle@.len() as int)
                == best_from(*scoring, needle@, haystack@, 0, -1, bcap as int));
            assert(attains_best(
                *scoring,
                needle@,
                haystack@,
                bcap as int,
                best_from(*scoring, needle@, haystack@, 0, -1, bcap as int),
                other,
            ));
        }
    }
    Some((sc, best))
}

} // verus!
