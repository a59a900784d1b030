//! Engine-wide laws, stated and proved over the model that the public
//! contracts speak of.

use vstd::prelude::*;

use crate::model::alignment_score;
use crate::model::ci_eq;
use crate::model::feasible;
use crate::model::is_alignment;
use crate::model::lemma_bm_range;
use crate::model::lemma_bm_upper;
use crate::model::lemma_inc_lb;
use crate::model::lemma_pre_suf_typos;
use crate::model::lemma_suf_counts;
use crate::model::contrib_at;
use crate::model::gap_cost;
use crate::model::is_lower;
use crate::model::is_upper;
use crate::model::lemma_score_pre_suf;
use crate::model::lex_le;
use crate::model::lex_lt_at;
use crate::model::optimal_result;
use crate::model::score_suf;
use crate::model::typo_count;
use crate::model::typos_pre;
use crate::model::within_budget;
use crate::ranker::MatchResult;
use crate::ranker::better;
use crate::ranker::has_index;
use crate::ranker::match_list_post;
use crate::ranker::row_ok;
use crate::scoring::Config;
use crate::scoring::Scoring;

verus! {

proof fn lemma_typos_pre_nonneg(n: Seq<char>, h: Seq<char>, idx: Seq<usize>, i: int)
    ensures
        typos_pre(n, h, idx, i) >= 0,
    decreases i,
{
    if i > 0 {
        lemma_typos_pre_nonneg(n, h, idx, i - 1);
    }
}

proof fn lemma_typos_pre_mono(n: Seq<char>, h: Seq<char>, idx: Seq<usize>, i: int, j: int)
    requires
        i <= j,
    ensures
        typos_pre(n, h, idx, i) <= typos_pre(n, h, idx, j),
    decreases j - i,
{
    if i < j {
        lemma_typos_pre_mono(n, h, idx, i, j - 1);
    }
}

/// An empty needle matches every haystack trivially: the empty alignment is
/// valid, has no typos, fits any budget, and scores zero.
pub proof fn lemma_empty_needle(n: Seq<char>, h: Seq<char>, k: Option<u16>, s: Scoring, idx: Seq<
    usize,
>)
    requires
        n.len() == 0,
        idx.len() == 0,
    ensures
        feasible(n, h, k),
        is_alignment(n, h, idx),
        typo_count(n, h, idx) == 0,
        within_budget(n, h, idx, k),
        alignment_score(s, n, h, idx) == 0,
{
}

/// When the haystack equals the needle exactly, the only alignment is the
/// identity `[0, 1, ..., len - 1]`; it has no typos, fits every budget, and
/// the pair is feasible, so the aligner is obliged to report it.
pub proof fn lemma_exact_match(n: Seq<char>, h: Seq<char>, k: Option<u16>, idx: Seq<usize>)
    requires
        h == n,
        is_alignment(n, h, idx),
    ensures
        forall|t: int| 0 <= t < idx.len() ==> (#[trigger] idx[t]) == t,
        typo_count(n, h, idx) == 0,
        within_budget(n, h, idx, k),
        feasible(n, h, k),
{
    assert forall|t: int| 0 <= t < idx.len() implies (#[trigger] idx[t]) == t by {
        lemma_inc_lb(idx, 0, t);
        lemma_inc_lb(idx, t, idx.len() - 1);
    }
    lemma_typos_all_matched(n, h, idx, n.len() as int);
    lemma_suf_counts(n, h, idx, 0);
    lemma_pre_suf_typos(n, h, idx, 0);
    lemma_bm_upper(n, h, idx, 0, 0);
    lemma_bm_range(n, h, 0, 0);
}

proof fn lemma_typos_all_matched(n: Seq<char>, h: Seq<char>, idx: Seq<usize>, i: int)
    requires
        h == n,
        is_alignment(n, h, idx),
        i <= n.len(),
        forall|t: int| 0 <= t < idx.len() ==> (#[trigger] idx[t]) == t,
    ensures
        typos_pre(n, h, idx, i) == 0,
    decreases i,
{
    if i > 0 {
        lemma_typos_all_matched(n, h, idx, i - 1);
        assert(ci_eq(n[i - 1], h[idx[i - 1] as int]));
    }
}

proof fn lemma_lex_antisym(a: Seq<usize>, b: Seq<usize>)
    requires
        lex_le(a, b),
        lex_le(b, a),
    ensures
        a == b,
{
    if a != b {
        let j1 = choose|j: int| #[trigger] lex_lt_at(a, b, j);
        let j2 = choose|j: int| #[trigger] lex_lt_at(b, a, j);
        if j1 < j2 {
            assert(b[j1] == a[j1]);
        } else if j2 < j1 {
            assert(a[j2] == b[j2]);
        }
        assert(false);
    }
}

/// The optimum is a point, not just a value: two optimal results for the
/// same pair carry the same score and the same index list, so the engine's
/// answer is a pure function of needle, haystack, weights and budget.
pub proof fn lemma_optimal_result_unique(
    s: Scoring,
    n: Seq<char>,
    h: Seq<char>,
    k: Option<u16>,
    idx1: Seq<usize>,
    sc1: int,
    idx2: Seq<usize>,
    sc2: int,
)
    requires
        optimal_result(s, n, h, k, idx1, sc1),
        optimal_result(s, n, h, k, idx2, sc2),
    ensures
        sc1 == sc2,
        idx1 == idx2,
{
    assert(lex_le(idx1, idx2));
    assert(lex_le(idx2, idx1));
    lemma_lex_antisym(idx1, idx2);
}

/// The prefilter is a pure optimization: two `match_list` results over the
/// same needle and haystacks, under configurations that agree on the typo
/// budget and the weights, report exactly the same set of haystacks, with
/// the same score and the same index list for every haystack reported by
/// both — whatever the `prefilter` (or `sort`) settings were.
pub proof fn lemma_prefilter_pure_optimization(
    r1: Seq<MatchResult>,
    r2: Seq<MatchResult>,
    n: Seq<char>,
    hs: Seq<String>,
    c1: Config,
    c2: Config,
)
    requires
        match_list_post(r1, n, hs, c1),
        match_list_post(r2, n, hs, c2),
        c1.max_typos == c2.max_typos,
        c1.scoring == c2.scoring,
    ensures
        forall|i: int| 0 <= i < hs.len() ==> (has_index(i, r1) <==> has_index(i, r2)),
        forall|t1: int, t2: int|
            0 <= t1 < r1.len() && 0 <= t2 < r2.len() && (#[trigger] r1[t1]).index == (
            #[trigger] r2[t2]).index ==> r1[t1].score == r2[t2].score && r1[t1].indices@
                == r2[t2].indices@,
{
    assert forall|i: int| 0 <= i < hs.len() implies (has_index(i, r1) <==> has_index(i, r2)) by {
        assert(feasible(n, hs[i]@, c1.max_typos) <==> has_index(i, r1));
        assert(feasible(n, hs[i]@, c2.max_typos) <==> has_index(i, r2));
    }
    assert forall|t1: int, t2: int|
        0 <= t1 < r1.len() && 0 <= t2 < r2.len() && (#[trigger] r1[t1]).index == (
        #[trigger] r2[t2]).index implies r1[t1].score == r2[t2].score && r1[t1].indices@
        == r2[t2].indices@ by {
        assert(row_ok(r1[t1], n, hs, c1));
        assert(row_ok(r2[t2], n, hs, c2));
        lemma_optimal_result_unique(
            c1.scoring,
            n,
            hs[r1[t1].index as int]@,
            c1.max_typos,
            r1[t1].indices@,
            r1[t1].score as int,
            r2[t2].indices@,
            r2[t2].score as int,
        );
    }
}

proof fn lemma_gap_nonneg(s: Scoring, g: int)
    ensures
        gap_cost(s, g) >= 0,
{
    if g >= 1 {
        assert((g - 1) * (s.gap_extend_penalty as int) >= 0) by (nonlinear_arith)
            requires
                g >= 1,
                s.gap_extend_penalty as int >= 0,
        ;
    }
}

/// One aligned character is worth at most a cased match plus its positional
/// bonus: the prefix bonus at position zero, else at most the word-boundary
/// bonuses (capitalization never exceeds matching-case by hypothesis, and
/// the two cannot both fire).
proof fn lemma_contrib_upper(s: Scoring, n: Seq<char>, h: Seq<char>, idx: Seq<usize>, i: int)
    requires
        is_alignment(n, h, idx),
        0 <= i < n.len(),
        s.capitalization_bonus <= s.matching_case_bonus,
    ensures
        contrib_at(s, n, h, idx, i) <= s.match_score as int + s.matching_case_bonus as int + (
        if idx[i] == 0 {
            s.prefix_bonus as int
        } else {
            s.offset_prefix_bonus as int + s.delimiter_bonus as int
        }),
{
    let p = idx[i] as int;
    if i > 0 {
        lemma_gap_nonneg(s, p - idx[i - 1] as int - 1);
    }
    if n[i] == h[p] {
        assert(!(is_upper(h[p]) && is_lower(n[i])));
    }
}

/// The score of the aligned suffix from character `i >= 1` on is at most a
/// cased match plus the word-boundary bonuses per character.
proof fn lemma_score_suf_upper_plain(s: Scoring, n: Seq<char>, h: Seq<char>, idx: Seq<usize>, i: int)
    requires
        is_alignment(n, h, idx),
        1 <= i <= n.len(),
        s.capitalization_bonus <= s.matching_case_bonus,
    ensures
        score_suf(s, n, h, idx, i) <= (n.len() - i) * (s.match_score as int
            + s.matching_case_bonus as int + s.offset_prefix_bonus as int
            + s.delimiter_bonus as int),
    decreases n.len() - i,
{
    let c = s.match_score as int + s.matching_case_bonus as int + s.offset_prefix_bonus as int
        + s.delimiter_bonus as int;
    if i >= n.len() {
        assert((n.len() - i) * c == 0) by (nonlinear_arith)
            requires
                n.len() - i == 0,
        ;
    } else {
        lemma_inc_lb(idx, 0, i);
        assert(idx[i] >= i >= 1);
        lemma_contrib_upper(s, n, h, idx, i);
        lemma_score_suf_upper_plain(s, n, h, idx, i + 1);
        assert((n.len() - i - 1) * c + c == (n.len() - i) * c) by (nonlinear_arith);
    }
}

/// On the identity alignment of the needle against itself, every character
/// is worth at least a cased match, and the first also earns the prefix
/// bonus.
proof fn lemma_exact_suf_lower(s: Scoring, n: Seq<char>, idx2: Seq<usize>, i: int)
    requires
        is_alignment(n, n, idx2),
        forall|t: int| 0 <= t < idx2.len() ==> (#[trigger] idx2[t]) == t,
        0 <= i <= n.len(),
    ensures
        score_suf(s, n, n, idx2, i) >= (n.len() - i) * (s.match_score as int
            + s.matching_case_bonus as int) + if i == 0 && n.len() > 0 {
            s.prefix_bonus as int
        } else {
            0int
        },
    decreases n.len() - i,
{
    let c = s.match_score as int + s.matching_case_bonus as int;
    if i >= n.len() {
        assert((n.len() - i) * c == 0) by (nonlinear_arith)
            requires
                n.len() - i == 0,
        ;
    } else {
        lemma_exact_suf_lower(s, n, idx2, i + 1);
        assert(ci_eq(n[i], n[idx2[i] as int]));
        assert(contrib_at(s, n, n, idx2, i) >= c + if i == 0 {
            s.prefix_bonus as int
        } else {
            0int
        });
        assert((n.len() - i - 1) * c + c == (n.len() - i) * c) by (nonlinear_arith);
    }
}

/// Exact-match dominance: when the word-boundary bonuses stay within the
/// prefix and (per-character) exact-match bonuses — as the default weights
/// do — the exact match of a needle against itself scores strictly higher
/// than any alignment of that needle into any longer haystack.
pub proof fn lemma_exact_match_dominance(
    s: Scoring,
    n: Seq<char>,
    h: Seq<char>,
    idx: Seq<usize>,
    idx2: Seq<usize>,
)
    requires
        s.capitalization_bonus <= s.matching_case_bonus,
        s.offset_prefix_bonus as int + s.delimiter_bonus as int <= s.prefix_bonus as int,
        s.offset_prefix_bonus as int + s.delimiter_bonus as int <= s.exact_match_bonus as int,
        s.exact_match_bonus >= 1,
        1 <= n.len() < h.len(),
        is_alignment(n, h, idx),
        is_alignment(n, n, idx2),
    ensures
        alignment_score(s, n, h, idx) < alignment_score(s, n, n, idx2),
{
    lemma_score_pre_suf(s, n, h, idx, 0);
    lemma_contrib_upper(s, n, h, idx, 0);
    lemma_score_suf_upper_plain(s, n, h, idx, 1);
    lemma_exact_match(n, n, None, idx2);
    lemma_exact_suf_lower(s, n, idx2, 0);
    lemma_score_pre_suf(s, n, n, idx2, 0);
    assert(n.len() != h.len());
    let bb = s.offset_prefix_bonus as int + s.delimiter_bonus as int;
    let c = s.match_score as int + s.matching_case_bonus as int;
    assert((n.len() - 1) * (c + bb) == (n.len() - 1) * c + (n.len() - 1) * bb && (n.len() - 1)
        * bb <= (n.len() - 1) * (s.exact_match_bonus as int) && (n.len() - 1) * c <= (n.len() - 1)
        * c && (n.len() - 1) * (s.exact_match_bonus as int) < n.len() * (
    s.exact_match_bonus as int) && (n.len() - 1) * c + c == n.len() * c) by (nonlinear_arith)
        requires
            n.len() >= 1,
            0 <= bb <= s.exact_match_bonus as int,
            s.exact_match_bonus >= 1,
            c >= 0,
    ;
}

/// Exact-match dominance at record level: a reported record whose haystack
/// equals the needle outranks every record of a longer haystack, under the
/// same bonus bounds.
pub proof fn lemma_exact_record_outranks(
    r1: MatchResult,
    r2: MatchResult,
    n: Seq<char>,
    hs: Seq<String>,
    c: Config,
)
    requires
        row_ok(r1, n, hs, c),
        row_ok(r2, n, hs, c),
        hs[r1.index as int]@ == n,
        hs[r2.index as int]@.len() > n.len(),
        n.len() >= 1,
        c.scoring.capitalization_bonus <= c.scoring.matching_case_bonus,
        c.scoring.offset_prefix_bonus as int + c.scoring.delimiter_bonus as int
            <= c.scoring.prefix_bonus as int,
        c.scoring.offset_prefix_bonus as int + c.scoring.delimiter_bonus as int
            <= c.scoring.exact_match_bonus as int,
        c.scoring.exact_match_bonus >= 1,
    ensures
        r1.score > r2.score,
{
    lemma_exact_match_dominance(
        c.scoring,
        n,
        hs[r2.index as int]@,
        r2.indices@,
        r1.indices@,
    );
}

/// With sorting enabled the returned scores are non-increasing.
pub proof fn lemma_sorted_scores(res: Seq<MatchResult>, n: Seq<char>, hs: Seq<String>, c: Config)
    requires
        match_list_post(res, n, hs, c),
        c.sort,
    ensures
        forall|t1: int, t2: int|
            0 <= t1 <= t2 < res.len() ==> (#[trigger] res[t1]).score >= (#[trigger] res[t2]).score,
{
    assert forall|t1: int, t2: int|
        0 <= t1 <= t2 < res.len() implies (#[trigger] res[t1]).score >= (#[trigger] res[t2]).score by {
        if t1 < t2 {
            assert(better(res[t1], res[t2]));
        }
    }
}

/// A zero typo budget means exact (case-insensitive) subsequence matching:
/// in any accepted alignment every needle character has a case-insensitive
/// counterpart at its matched, strictly increasing position.
pub proof fn lemma_zero_typos_all_matched(n: Seq<char>, h: Seq<char>, idx: Seq<usize>)
    requires
        is_alignment(n, h, idx),
        typo_count(n, h, idx) == 0,
    ensures
        forall|t: int| 0 <= t < n.len() ==> ci_eq(n[t], h[(#[trigger] idx[t]) as int]),
{
    assert forall|t: int| 0 <= t < n.len() implies ci_eq(n[t], h[(#[trigger] idx[t]) as int]) by {
        lemma_typos_pre_nonneg(n, h, idx, t);
        lemma_typos_pre_mono(n, h, idx, t + 1, n.len() as int);
        assert(typos_pre(n, h, idx, t + 1) == typos_pre(n, h, idx, t) + if ci_eq(
            n[t],
            h[idx[t] as int],
        ) {
            0int
        } else {
            1int
        });
    }
}

} // verus!
