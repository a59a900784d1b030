//! The mathematical model of the engine: what an alignment is, how many typos
//! it contains, what it scores, and the maximal number of matchable
//! characters (`bm_at`) that decides whether a haystack can match at all.

use vstd::prelude::*;

use crate::scoring::Scoring;

verus! {

/// ASCII upper-case letter.
pub open spec fn is_upper(c: char) -> bool {
    65 <= c as u32 && c as u32 <= 90
}

/// ASCII lower-case letter.
pub open spec fn is_lower(c: char) -> bool {
    97 <= c as u32 && c as u32 <= 122
}

/// Case-insensitive equality: equal code points, or equal after folding an
/// ASCII upper-case letter to its lower-case form.
pub open spec fn ci_eq(a: char, b: char) -> bool {
    ||| a == b
    ||| (is_upper(a) && b as u32 == a as u32 + 32)
    ||| (is_upper(b) && a as u32 == b as u32 + 32)
}

/// `idx` maps every needle character to a haystack position, strictly
/// increasing and in bounds: the shape every reported match has.
pub open spec fn is_alignment(n: Seq<char>, h: Seq<char>, idx: Seq<usize>) -> bool {
    &&& idx.len() == n.len()
    &&& forall|t: int| 0 <= t < idx.len() ==> (#[trigger] idx[t]) < h.len()
    &&& forall|t: int| 0 < t < idx.len() ==> idx[t - 1] < #[trigger] idx[t]
}

/// Number of typos (case-insensitive mismatches) among the first `i` aligned
/// needle characters.
pub open spec fn typos_pre(n: Seq<char>, h: Seq<char>, idx: Seq<usize>, i: int) -> int
    decreases i,
{
    if i <= 0 {
        0
    } else {
        typos_pre(n, h, idx, i - 1) + if ci_eq(n[i - 1], h[idx[i - 1] as int]) {
            0int
        } else {
            1int
        }
    }
}

/// Total typo count of an alignment.
pub open spec fn typo_count(n: Seq<char>, h: Seq<char>, idx: Seq<usize>) -> int {
    typos_pre(n, h, idx, n.len() as int)
}

/// Number of matched characters among the aligned needle characters from
/// position `i` on (suffix form, used by the inductive proofs).
pub open spec fn matches_suf(n: Seq<char>, h: Seq<char>, idx: Seq<usize>, i: int) -> int
    decreases n.len() - i,
{
    if i < 0 || i >= n.len() {
        0
    } else {
        (if ci_eq(n[i], h[idx[i] as int]) {
            1int
        } else {
            0int
        }) + matches_suf(n, h, idx, i + 1)
    }
}

/// Typos among the aligned needle characters from position `i` on.
pub open spec fn typos_suf(n: Seq<char>, h: Seq<char>, idx: Seq<usize>, i: int) -> int
    decreases n.len() - i,
{
    if i < 0 || i >= n.len() {
        0
    } else {
        (if ci_eq(n[i], h[idx[i] as int]) {
            0int
        } else {
            1int
        }) + typos_suf(n, h, idx, i + 1)
    }
}

/// Whether an alignment is acceptable: it stays within the configured typo
/// budget, and — unless the needle is empty — matches at least one needle
/// character (an alignment of nothing but typos is no match at all).
pub open spec fn within_budget(n: Seq<char>, h: Seq<char>, idx: Seq<usize>, k: Option<u16>) -> bool {
    &&& match k {
        Some(t) => typo_count(n, h, idx) <= t as int,
        None => true,
    }
    &&& (n.len() == 0 || typo_count(n, h, idx) < n.len())
}

/// Best (maximal) number of matched characters over all alignments of
/// `n[i..]` into `h[j..]`, or `-1` when no alignment fits (too few haystack
/// characters remain).
pub open spec fn bm_at(n: Seq<char>, h: Seq<char>, i: int, j: int) -> int
    decreases h.len() - j,
{
    if i < 0 || j < 0 {
        -1
    } else if i >= n.len() {
        0
    } else if h.len() - j < n.len() - i {
        -1
    } else {
        let pair = (if ci_eq(n[i], h[j]) {
            1int
        } else {
            0int
        }) + bm_at(n, h, i + 1, j + 1);
        let skip = bm_at(n, h, i, j + 1);
        if skip > pair {
            skip
        } else {
            pair
        }
    }
}

/// A haystack can match: the needle fits, some needle character can match at
/// all (unless the needle is empty), and when a typo budget is set, the best
/// achievable number of matches leaves at most that many typos.
pub open spec fn feasible(n: Seq<char>, h: Seq<char>, k: Option<u16>) -> bool {
    &&& n.len() <= h.len()
    &&& (n.len() == 0 || bm_at(n, h, 0, 0) >= 1)
    &&& match k {
        Some(t) => bm_at(n, h, 0, 0) >= n.len() as int - t as int,
        None => true,
    }
}

/// Bonuses earned by a matched needle character `n[i]` at haystack position
/// `p`: start-of-string, start-of-word (after a delimiter or a camel-case
/// transition), a delimiter immediately before, deliberate capitalization,
/// and identical code points.
pub open spec fn match_bonus(s: Scoring, n: Seq<char>, h: Seq<char>, i: int, p: int) -> int {
    (if p == 0 {
        s.prefix_bonus as int
    } else {
        0int
    }) + (if p > 0 && (s.delimiters@.contains(h[p - 1]) || (is_lower(h[p - 1]) && is_upper(h[p]))) {
        s.offset_prefix_bonus as int
    } else {
        0int
    }) + (if p > 0 && s.delimiters@.contains(h[p - 1]) {
        s.delimiter_bonus as int
    } else {
        0int
    }) + (if is_upper(h[p]) && is_lower(n[i]) {
        s.capitalization_bonus as int
    } else {
        0int
    }) + (if n[i] == h[p] {
        s.matching_case_bonus as int
    } else {
        0int
    })
}

/// Cost of skipping `g` consecutive haystack characters between two matches:
/// free for `g == 0`, else one gap-open plus `g - 1` gap-extends.
pub open spec fn gap_cost(s: Scoring, g: int) -> int {
    if g <= 0 {
        0
    } else {
        s.gap_open_penalty as int + (g - 1) * s.gap_extend_penalty as int
    }
}

/// Worth of placing needle character `i` at haystack position `p`, without
/// the gap term: match reward plus bonuses, or the mismatch penalty.
pub open spec fn char_base(s: Scoring, n: Seq<char>, h: Seq<char>, i: int, p: int) -> int {
    if ci_eq(n[i], h[p]) {
        s.match_score as int + match_bonus(s, n, h, i, p)
    } else {
        -(s.mismatch_penalty as int)
    }
}

/// Worth of placing needle character `i` at haystack position `p` when the
/// previous needle character sits at `q` (`q == -1` before the first): the
/// character's own worth minus the cost of the gap crossed to reach it.
pub open spec fn step_score(s: Scoring, n: Seq<char>, h: Seq<char>, i: int, q: int, p: int) -> int {
    char_base(s, n, h, i, p) - if i == 0 {
        0int
    } else {
        gap_cost(s, p - q - 1)
    }
}

/// Contribution of aligned needle character `i`: match reward plus bonuses,
/// or the mismatch penalty; minus the cost of the gap that precedes it.
pub open spec fn contrib_at(s: Scoring, n: Seq<char>, h: Seq<char>, idx: Seq<usize>, i: int) -> int {
    let p = idx[i] as int;
    let base = char_base(s, n, h, i, p);
    let gap = if i == 0 {
        0int
    } else {
        gap_cost(s, p - idx[i - 1] as int - 1)
    };
    base - gap
}

/// Score of the first `i` aligned needle characters.
pub open spec fn score_pre(s: Scoring, n: Seq<char>, h: Seq<char>, idx: Seq<usize>, i: int) -> int
    decreases i,
{
    if i <= 0 {
        0
    } else {
        score_pre(s, n, h, idx, i - 1) + contrib_at(s, n, h, idx, i - 1)
    }
}

/// Score of the aligned needle characters from position `i` on (suffix
/// form, used by the optimality proofs).
pub open spec fn score_suf(s: Scoring, n: Seq<char>, h: Seq<char>, idx: Seq<usize>, i: int) -> int
    decreases n.len() - i,
{
    if i < 0 || i >= n.len() {
        0
    } else {
        contrib_at(s, n, h, idx, i) + score_suf(s, n, h, idx, i + 1)
    }
}

/// Total score of an alignment: the per-character contributions, plus the
/// exact-match bonus, earned once per character when the haystack equals the
/// needle exactly — so a full exact match outgrows every boundary bonus a
/// longer haystack can offer (see `lemma_exact_match_dominance`).
/// A gap of `g` skipped characters costs one gap-open plus `g - 1`
/// gap-extends, and a matched character of identical case earns the
/// matching-case bonus; together these fix the worked score of a
/// two-character query over a two-character gap at
/// 2·match + prefix + 2·matching-case − gap-open − gap-extend.
pub open spec fn alignment_score(s: Scoring, n: Seq<char>, h: Seq<char>, idx: Seq<usize>) -> int {
    score_pre(s, n, h, idx, n.len() as int) + if n.len() > 0 && n == h {
        n.len() * (s.exact_match_bonus as int)
    } else {
        0int
    }
}

/// In a strictly increasing index sequence, position `t` is at least
/// `idx[lo] + (t - lo)`.
pub proof fn lemma_inc_lb(idx: Seq<usize>, lo: int, t: int)
    requires
        0 <= lo <= t < idx.len(),
        forall|u: int| 0 < u < idx.len() ==> idx[u - 1] < #[trigger] idx[u],
    ensures
        idx[t] as int >= idx[lo] as int + (t - lo),
    decreases t - lo,
{
    if t > lo {
        lemma_inc_lb(idx, lo, t - 1);
    }
}

/// An alignment of `n` into `h` needs at least `n.len()` haystack characters.
pub proof fn lemma_alignment_needs_len(n: Seq<char>, h: Seq<char>, idx: Seq<usize>)
    requires
        is_alignment(n, h, idx),
    ensures
        n.len() <= h.len(),
{
    if n.len() > 0 {
        lemma_inc_lb(idx, 0, n.len() as int - 1);
    }
}

/// `bm_at` is bounded: at least `-1`, and at most the number of needle
/// characters that remain.
pub proof fn lemma_bm_range(n: Seq<char>, h: Seq<char>, i: int, j: int)
    ensures
        -1 <= bm_at(n, h, i, j),
        bm_at(n, h, i, j) <= if i < 0 { -1int } else if n.len() - i >= 0 { n.len() - i } else { 0int },
        (0 <= i && 0 <= j && i <= n.len() && n.len() - i <= h.len() - j) ==> bm_at(n, h, i, j) >= 0,
    decreases h.len() - j,
{
    if i < 0 || j < 0 {
    } else if i >= n.len() {
    } else if h.len() - j < n.len() - i {
    } else {
        lemma_bm_range(n, h, i + 1, j + 1);
        lemma_bm_range(n, h, i, j + 1);
    }
}

/// Matches of the suffix and typos of the suffix add up to its length.
pub proof fn lemma_suf_counts(n: Seq<char>, h: Seq<char>, idx: Seq<usize>, i: int)
    requires
        0 <= i <= n.len(),
    ensures
        matches_suf(n, h, idx, i) + typos_suf(n, h, idx, i) == n.len() - i,
        0 <= matches_suf(n, h, idx, i),
        0 <= typos_suf(n, h, idx, i),
    decreases n.len() - i,
{
    if i < n.len() {
        lemma_suf_counts(n, h, idx, i + 1);
    }
}

/// The prefix and suffix typo counts split the total.
pub proof fn lemma_pre_suf_typos(n: Seq<char>, h: Seq<char>, idx: Seq<usize>, i: int)
    requires
        0 <= i <= n.len(),
    ensures
        typos_pre(n, h, idx, i) + typos_suf(n, h, idx, i) == typo_count(n, h, idx),
    decreases n.len() - i,
{
    if i < n.len() {
        lemma_pre_suf_typos(n, h, idx, i + 1);
    }
}

/// The prefix and suffix scores split the total.
pub proof fn lemma_score_pre_suf(s: Scoring, n: Seq<char>, h: Seq<char>, idx: Seq<usize>, i: int)
    requires
        0 <= i <= n.len(),
    ensures
        score_pre(s, n, h, idx, i) + score_suf(s, n, h, idx, i) == score_pre(
            s,
            n,
            h,
            idx,
            n.len() as int,
        ),
    decreases n.len() - i,
{
    if i < n.len() {
        lemma_score_pre_suf(s, n, h, idx, i + 1);
    }
}

/// `a` differs first from `b` at position `j`, where `a` is smaller.
pub open spec fn lex_lt_at(a: Seq<usize>, b: Seq<usize>, j: int) -> bool {
    &&& 0 <= j < a.len()
    &&& j < b.len()
    &&& a[j] < b[j]
    &&& forall|t: int| 0 <= t < j ==> a[t] == #[trigger] b[t]
}

/// Lexicographic order on index sequences: equal, or smaller at the first
/// difference.
pub open spec fn lex_le(a: Seq<usize>, b: Seq<usize>) -> bool {
    a == b || exists|j: int| #[trigger] lex_lt_at(a, b, j)
}

/// The prefix score reads only the first `i` entries of the index sequence.
pub proof fn lemma_score_pre_congruent(
    s: Scoring,
    n: Seq<char>,
    h: Seq<char>,
    a: Seq<usize>,
    b: Seq<usize>,
    i: int,
)
    requires
        0 <= i <= a.len(),
        i <= b.len(),
        forall|t: int| 0 <= t < i ==> a[t] == #[trigger] b[t],
    ensures
        score_pre(s, n, h, a, i) == score_pre(s, n, h, b, i),
    decreases i,
{
    if i > 0 {
        lemma_score_pre_congruent(s, n, h, a, b, i - 1);
        assert(contrib_at(s, n, h, a, i - 1) == contrib_at(s, n, h, b, i - 1));
    }
}

/// The prefix typo count reads only the first `i` entries of the index
/// sequence.
pub proof fn lemma_typos_pre_congruent(
    n: Seq<char>,
    h: Seq<char>,
    a: Seq<usize>,
    b: Seq<usize>,
    i: int,
)
    requires
        0 <= i <= a.len(),
        i <= b.len(),
        forall|t: int| 0 <= t < i ==> a[t] == #[trigger] b[t],
    ensures
        typos_pre(n, h, a, i) == typos_pre(n, h, b, i),
    decreases i,
{
    if i > 0 {
        lemma_typos_pre_congruent(n, h, a, b, i - 1);
    }
}

/// The best result a matcher can return for a pair: a valid alignment
/// within the budget, carrying its exact model score, which no other
/// acceptable alignment of the pair exceeds — and, among the acceptable
/// alignments attaining that score, the lexicographically least, so the
/// result is a pure function of the pair, the weights and the budget.
pub open spec fn optimal_result(
    s: Scoring,
    n: Seq<char>,
    h: Seq<char>,
    k: Option<u16>,
    idx: Seq<usize>,
    sc: int,
) -> bool {
    &&& is_alignment(n, h, idx)
    &&& within_budget(n, h, idx, k)
    &&& sc == alignment_score(s, n, h, idx)
    &&& forall|other: Seq<usize>|
        is_alignment(n, h, other) && within_budget(n, h, other, k) ==> alignment_score(
            s,
            n,
            h,
            other,
        ) <= sc
    &&& forall|other: Seq<usize>|
        is_alignment(n, h, other) && within_budget(n, h, other, k) && alignment_score(
            s,
            n,
            h,
            other,
        ) == sc ==> lex_le(idx, other)
}

/// The prefix typo count reads only the first `i` entries of the index
/// sequence, so appending an entry leaves it unchanged.
pub proof fn lemma_typos_pre_push(n: Seq<char>, h: Seq<char>, idx: Seq<usize>, x: usize, i: int)
    requires
        0 <= i <= idx.len(),
    ensures
        typos_pre(n, h, idx.push(x), i) == typos_pre(n, h, idx, i),
    decreases i,
{
    if i > 0 {
        lemma_typos_pre_push(n, h, idx, x, i - 1);
        assert(idx.push(x)[i - 1] == idx[i - 1]);
    }
}

/// No alignment of the suffix beats the best-match count: `matches_suf` of
/// any valid alignment whose entries from `i` on lie in `[j, h.len())` is at
/// most `bm_at(i, j)`.
pub proof fn lemma_bm_upper(n: Seq<char>, h: Seq<char>, idx: Seq<usize>, i: int, j: int)
    requires
        idx.len() == n.len(),
        0 <= i <= n.len(),
        0 <= j <= h.len(),
        forall|t: int| i <= t < idx.len() ==> j <= #[trigger] idx[t] && idx[t] < h.len(),
        forall|t: int| 0 < t < idx.len() ==> idx[t - 1] < #[trigger] idx[t],
    ensures
        matches_suf(n, h, idx, i) <= bm_at(n, h, i, j),
    decreases h.len() - j,
{
    if i >= n.len() {
    } else {
        lemma_inc_lb(idx, i, n.len() as int - 1);
        assert(h.len() - j >= n.len() - i);
        if idx[i] == j {
            assert forall|t: int| i + 1 <= t < idx.len() implies j + 1 <= #[trigger] idx[t] && idx[t]
                < h.len() by {
                lemma_inc_lb(idx, i, t);
            }
            lemma_bm_upper(n, h, idx, i + 1, j + 1);
        } else {
            assert forall|t: int| i <= t < idx.len() implies j + 1 <= #[trigger] idx[t] && idx[t]
                < h.len() by {
                lemma_inc_lb(idx, i, t);
            }
            lemma_bm_upper(n, h, idx, i, j + 1);
            lemma_bm_range(n, h, i + 1, j + 1);
        }
    }
}

/// Dropping one haystack character never helps: `bm_at(i, j) >= bm_at(i, j + 1)`.
pub proof fn lemma_bm_mono_j(n: Seq<char>, h: Seq<char>, i: int, j: int)
    requires
        0 <= i,
        0 <= j,
    ensures
        bm_at(n, h, i, j) >= bm_at(n, h, i, j + 1),
    decreases h.len() - j,
{
    if i >= n.len() {
        lemma_bm_range(n, h, i, j + 1);
    } else if h.len() - j < n.len() - i {
        lemma_bm_range(n, h, i, j + 1);
    } else {
        lemma_bm_range(n, h, i + 1, j + 1);
        lemma_bm_range(n, h, i, j + 1);
    }
}

/// Dropping the first remaining needle character loses at most one match.
pub proof fn lemma_bm_drop(n: Seq<char>, h: Seq<char>, i: int, j: int)
    requires
        0 <= i,
        0 <= j,
    ensures
        bm_at(n, h, i + 1, j) >= bm_at(n, h, i, j) - 1,
    decreases h.len() - j,
{
    if i >= n.len() {
        lemma_bm_range(n, h, i + 1, j);
    } else if h.len() - j < n.len() - i {
        lemma_bm_range(n, h, i + 1, j);
    } else {
        lemma_bm_drop(n, h, i, j + 1);
        lemma_bm_mono_j(n, h, i + 1, j);
        lemma_bm_range(n, h, i + 1, j + 1);
        lemma_bm_range(n, h, i, j + 1);
    }
}

} // verus!
