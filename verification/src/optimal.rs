//! The optimum the aligner must attain: the highest weighted score over all
//! acceptable alignments, as a recursion over (needle index, previous
//! position, typos left), with the proof that no alignment beats it and the
//! verified table and traceback that attain it.

use vstd::prelude::*;

use crate::MAX_LEN;
use crate::align::char_base_exec;
use crate::align::gap_cost_exec;
use crate::model::ci_eq;
use crate::model::contrib_at;
use crate::model::gap_cost;
use crate::model::is_alignment;
use crate::model::lemma_inc_lb;
use crate::model::lemma_pre_suf_typos;
use crate::model::lemma_score_pre_congruent;
use crate::model::lemma_score_pre_suf;
use crate::model::lemma_suf_counts;
use crate::model::lemma_typos_pre_congruent;
use crate::model::lex_le;
use crate::model::lex_lt_at;
use crate::model::lemma_typos_pre_push;
use crate::model::score_pre;
use crate::model::score_suf;
use crate::model::step_score;
use crate::model::typo_count;
use crate::model::typos_pre;
use crate::model::typos_suf;
use crate::scoring::Scoring;
use crate::text::ci_eq_exec;

verus! {

/// Sentinel for "no acceptable alignment": far below any reachable score.
pub const NEG_INF: i64 = -0x4000_0000_0000_0000;

/// The worth of choosing position `p` for needle character `i` with the
/// previous character at `q` and `t` typos allowed: the step score plus the
/// best continuation, or the sentinel when the choice does not fit.
pub open spec fn here_of(s: Scoring, n: Seq<char>, h: Seq<char>, i: int, q: int, t: int, p: int) -> int
    decreases n.len() - i, h.len() - p, 1int,
{
    if i < 0 || i >= n.len() || t < 0 || p < 0 || p > h.len() - (n.len() - i) {
        NEG_INF as int
    } else {
        let d: int = if ci_eq(n[i], h[p]) {
            0
        } else {
            1
        };
        let sub = best_from(s, n, h, i + 1, p, t - d);
        if d <= t && sub != NEG_INF as int {
            step_score(s, n, h, i, q, p) + sub
        } else {
            NEG_INF as int
        }
    }
}

/// Best score of aligning `n[i..]` into positions of `(p - 1, h.len())`
/// considering candidate positions `p` and upward for character `i`, with
/// previous character at `q` and `t` typos still allowed; `NEG_INF` when no
/// choice fits.
pub open spec fn bfp(s: Scoring, n: Seq<char>, h: Seq<char>, i: int, q: int, t: int, p: int) -> int
    decreases n.len() - i, h.len() - p, 2int,
{
    if i < 0 || i >= n.len() || t < 0 || p < 0 {
        NEG_INF as int
    } else if p > h.len() - (n.len() - i) {
        NEG_INF as int
    } else {
        let rest = bfp(s, n, h, i, q, t, p + 1);
        let here = here_of(s, n, h, i, q, t, p);
        if here > rest {
            here
        } else {
            rest
        }
    }
}

/// An alignment that attains the optimum: valid, within the typo cap, with
/// the optimal prefix score.
pub open spec fn attains_best(
    s: Scoring,
    n: Seq<char>,
    h: Seq<char>,
    bcap: int,
    best0: int,
    o: Seq<usize>,
) -> bool {
    &&& is_alignment(n, h, o)
    &&& typo_count(n, h, o) <= bcap
    &&& score_pre(s, n, h, o, n.len() as int) == best0
}

/// `o` agrees with `w` on the first `i` entries, or `w` is already
/// lexicographically smaller at some earlier position.
pub open spec fn prefix_or_gt(w: Seq<usize>, o: Seq<usize>, i: int) -> bool {
    (forall|t: int| 0 <= t < i ==> o[t] == #[trigger] w[t]) || (exists|j: int|
        0 <= j < i && #[trigger] lex_lt_at(w, o, j))
}

/// Best score of aligning `n[i..]` strictly after position `q` with `t`
/// typos still allowed; `0` once the needle is consumed, `NEG_INF` when no
/// alignment fits.
pub open spec fn best_from(s: Scoring, n: Seq<char>, h: Seq<char>, i: int, q: int, t: int) -> int
    decreases n.len() - i, h.len() - q, 3int,
{
    if i >= n.len() {
        0
    } else if q < -1 || q >= h.len() {
        NEG_INF as int
    } else {
        bfp(s, n, h, i, q, t, q + 1)
    }
}

/// `gap_cost` is non-negative and at most `65535 * g`.
proof fn lemma_gap_cost_bound(s: Scoring, g: int)
    ensures
        0 <= gap_cost(s, g),
        g >= 0 ==> gap_cost(s, g) <= 65535 * g,
{
    if g >= 1 {
        assert(0 <= (g - 1) * (s.gap_extend_penalty as int) <= (g - 1) * 65535)
            by (nonlinear_arith)
            requires
                g >= 1,
                0 <= s.gap_extend_penalty as int <= 65535,
        ;
        assert((g - 1) * 65535 == 65535 * g - 65535) by (nonlinear_arith);
    }
}

/// `step_score` is bounded by the weights and the width of the gap crossed.
proof fn lemma_step_bound(s: Scoring, n: Seq<char>, h: Seq<char>, i: int, q: int, p: int)
    requires
        p >= q + 1,
    ensures
        -65535 * (7 + p - q - 1) <= step_score(s, n, h, i, q, p) <= 7 * 65535,
{
    lemma_gap_cost_bound(s, p - q - 1);
}

/// Any value of the optimum recursion is the sentinel or lies well inside
/// the `i64` range.
pub proof fn lemma_best_bounds(s: Scoring, n: Seq<char>, h: Seq<char>, i: int, q: int, t: int)
    requires
        i <= n.len(),
        -1 <= q <= h.len(),
    ensures
        best_from(s, n, h, i, q, t) == NEG_INF as int || (-65535 * (7 * (n.len() - i) + h.len()
            - q) <= best_from(s, n, h, i, q, t) <= 65535 * (7 * (n.len() - i) + h.len() - q)),
    decreases n.len() - i, h.len() - q, 3int,
{
    if i >= n.len() {
    } else if q < -1 || q >= h.len() {
    } else {
        lemma_bfp_bounds(s, n, h, i, q, t, q + 1);
    }
}

proof fn lemma_here_bounds(s: Scoring, n: Seq<char>, h: Seq<char>, i: int, q: int, t: int, p: int)
    requires
        i <= n.len(),
        -1 <= q <= h.len(),
        q + 1 <= p,
    ensures
        here_of(s, n, h, i, q, t, p) == NEG_INF as int || (-65535 * (7 * (n.len() - i) + h.len()
            - q) <= here_of(s, n, h, i, q, t, p) <= 65535 * (7 * (n.len() - i) + h.len() - q)),
    decreases n.len() - i, h.len() - p, 1int,
{
    if i < 0 || i >= n.len() || t < 0 || p < 0 || p > h.len() - (n.len() - i) {
    } else {
        let d: int = if ci_eq(n[i], h[p]) {
            0
        } else {
            1
        };
        lemma_best_bounds(s, n, h, i + 1, p, t - d);
        lemma_step_bound(s, n, h, i, q, p);
    }
}

proof fn lemma_bfp_bounds(s: Scoring, n: Seq<char>, h: Seq<char>, i: int, q: int, t: int, p: int)
    requires
        i <= n.len(),
        -1 <= q <= h.len(),
        q + 1 <= p,
    ensures
        bfp(s, n, h, i, q, t, p) == NEG_INF as int || (-65535 * (7 * (n.len() - i) + h.len() - q)
            <= bfp(s, n, h, i, q, t, p) <= 65535 * (7 * (n.len() - i) + h.len() - q)),
    decreases n.len() - i, h.len() - p, 2int,
{
    if i < 0 || i >= n.len() || t < 0 || p < 0 {
    } else if p > h.len() - (n.len() - i) {
    } else {
        lemma_bfp_bounds(s, n, h, i, q, t, p + 1);
        lemma_here_bounds(s, n, h, i, q, t, p);
    }
}

/// The candidate scan covers every position: the worth of any single choice
/// `p` at or after the scan start is at most the scanned maximum.
proof fn lemma_bfp_covers(s: Scoring, n: Seq<char>, h: Seq<char>, i: int, q: int, t: int, p0: int, p: int)
    requires
        0 <= i < n.len(),
        0 <= t,
        0 <= p0 <= p,
        p <= h.len() - (n.len() - i),
    ensures
        ({
            let d: int = if ci_eq(n[i], h[p]) {
                0
            } else {
                1
            };
            let sub = best_from(s, n, h, i + 1, p, t - d);
            (d <= t && sub != NEG_INF as int) ==> step_score(s, n, h, i, q, p) + sub <= bfp(
                s,
                n,
                h,
                i,
                q,
                t,
                p0,
            )
        }),
    decreases p - p0,
{
    if p0 < p {
        lemma_bfp_covers(s, n, h, i, q, t, p0 + 1, p);
    } else {
        assert(bfp(s, n, h, i, q, t, p0) >= here_of(s, n, h, i, q, t, p0));
    }
}

/// The suffix score of any valid alignment is bounded (so it never collides
/// with the sentinel).
pub proof fn lemma_score_suf_bound(s: Scoring, n: Seq<char>, h: Seq<char>, idx: Seq<usize>, i: int, q: int)
    requires
        idx.len() == n.len(),
        0 <= i <= n.len(),
        -1 <= q <= h.len(),
        forall|u: int| i <= u < idx.len() ==> q < #[trigger] idx[u] && idx[u] < h.len(),
        forall|u: int| 0 < u < idx.len() ==> idx[u - 1] < #[trigger] idx[u],
        i >= 1 ==> idx[i - 1] == q,
    ensures
        -65535 * (7 * (n.len() - i) + h.len() - q) <= score_suf(s, n, h, idx, i) <= 65535 * (7 * (
        n.len() - i) + h.len() - q),
    decreases n.len() - i,
{
    if i < n.len() {
        let p = idx[i] as int;
        assert forall|u: int| i + 1 <= u < idx.len() implies p < #[trigger] idx[u] && idx[u]
            < h.len() by {
            lemma_inc_lb(idx, i, u);
        }
        lemma_score_suf_bound(s, n, h, idx, i + 1, p);
        lemma_step_bound(s, n, h, i, q, p);
        assert(contrib_at(s, n, h, idx, i) == step_score(s, n, h, i, q, p));
    }
}

/// No acceptable alignment of the suffix beats the optimum recursion.
pub proof fn lemma_best_from_upper(
    s: Scoring,
    n: Seq<char>,
    h: Seq<char>,
    idx: Seq<usize>,
    i: int,
    q: int,
    t: int,
)
    requires
        n.len() <= MAX_LEN,
        h.len() <= MAX_LEN,
        idx.len() == n.len(),
        0 <= i <= n.len(),
        -1 <= q < h.len(),
        forall|u: int| i <= u < idx.len() ==> q < #[trigger] idx[u] && idx[u] < h.len(),
        forall|u: int| 0 < u < idx.len() ==> idx[u - 1] < #[trigger] idx[u],
        i >= 1 ==> idx[i - 1] == q,
        typos_suf(n, h, idx, i) <= t,
    ensures
        score_suf(s, n, h, idx, i) <= best_from(s, n, h, i, q, t),
    decreases n.len() - i,
{
    if i >= n.len() {
    } else {
        let p = idx[i] as int;
        let d: int = if ci_eq(n[i], h[p]) {
            0
        } else {
            1
        };
        lemma_suf_counts(n, h, idx, i + 1);
        assert(typos_suf(n, h, idx, i) == d + typos_suf(n, h, idx, i + 1));
        assert forall|u: int| i + 1 <= u < idx.len() implies p < #[trigger] idx[u] && idx[u]
            < h.len() by {
            lemma_inc_lb(idx, i, u);
        }
        lemma_best_from_upper(s, n, h, idx, i + 1, p, t - d);
        lemma_score_suf_bound(s, n, h, idx, i + 1, p);
        lemma_best_bounds(s, n, h, i + 1, p, t - d);
        let sub = best_from(s, n, h, i + 1, p, t - d);
        assert(sub != NEG_INF as int);
        if n.len() - 1 >= i {
            lemma_inc_lb(idx, i, n.len() - 1);
        }
        assert(p <= h.len() - (n.len() - i));
        lemma_bfp_covers(s, n, h, i, q, t, q + 1, p);
        assert(contrib_at(s, n, h, idx, i) == step_score(s, n, h, i, q, p));
        assert(score_suf(s, n, h, idx, i) == contrib_at(s, n, h, idx, i) + score_suf(
            s,
            n,
            h,
            idx,
            i + 1,
        ));
    }
}

/// The filled optimum table: entry `[a][qi][t]` holds `best_from` for needle
/// suffix `n - a`, previous position `qi - 1`, and `t` typos allowed.
pub open spec fn score_table_ok(
    tab: Seq<Vec<Vec<i64>>>,
    s: Scoring,
    n: Seq<char>,
    h: Seq<char>,
    bcap: int,
) -> bool {
    &&& tab.len() == n.len() + 1
    &&& forall|a: int| 0 <= a < tab.len() ==> (#[trigger] tab[a])@.len() == h.len() + 1
    &&& forall|a: int, qi: int|
        0 <= a < tab.len() && 0 <= qi <= h.len() ==> (#[trigger] tab[a]@[qi])@.len() == bcap + 1
    &&& forall|a: int, qi: int, t: int|
        0 <= a < tab.len() && 0 <= qi <= h.len() && 0 <= t <= bcap ==> #[trigger] tab[a]@[qi]@[t]
            == best_from(s, n, h, n.len() - a, qi - 1, t)
}

/// Fill the optimum table from the last needle suffix backwards.
#[verifier::rlimit(100)]
pub fn build_score_table(s: &Scoring, needle: &Vec<char>, hay: &Vec<char>, bcap: usize) -> (tab:
    Vec<Vec<Vec<i64>>>)
    requires
        1 <= needle@.len() <= hay@.len(),
        hay@.len() <= MAX_LEN,
        bcap < needle@.len(),
    ensures
        score_table_ok(tab@, *s, needle@, hay@, bcap as int),
{
    let n = needle.len();
    let m = hay.len();
    let mut tab: Vec<Vec<Vec<i64>>> = Vec::new();
    let mut a: usize = 0;
    while a <= n
        invariant
            n == needle@.len(),
            m == hay@.len(),
            1 <= n <= m,
            m <= MAX_LEN,
            bcap < n,
            a <= n + 1,
            tab@.len() == a,
            forall|x: int| 0 <= x < a ==> (#[trigger] tab@[x])@.len() == m + 1,
            forall|x: int, qi: int|
                0 <= x < a && 0 <= qi <= m ==> (#[trigger] tab@[x]@[qi])@.len() == bcap + 1,
            forall|x: int, qi: int, t: int|
                0 <= x < a && 0 <= qi <= m && 0 <= t <= bcap ==> #[trigger] tab@[x]@[qi]@[t]
                    == best_from(*s, needle@, hay@, n - x, qi - 1, t),
        decreases n + 1 - a,
    {
        let i = n - a;
        let mut row: Vec<Vec<i64>> = Vec::new();
        let mut qi: usize = 0;
        while qi <= m
            invariant
                n == needle@.len(),
                m == hay@.len(),
                1 <= n <= m,
                m <= MAX_LEN,
                bcap < n,
                a <= n,
                i == n - a,
                qi <= m + 1,
                tab@.len() == a,
                forall|x: int| 0 <= x < a ==> (#[trigger] tab@[x])@.len() == m + 1,
                forall|x: int, y: int|
                    0 <= x < a && 0 <= y <= m ==> (#[trigger] tab@[x]@[y])@.len() == bcap + 1,
                forall|x: int, y: int, t: int|
                    0 <= x < a && 0 <= y <= m && 0 <= t <= bcap ==> #[trigger] tab@[x]@[y]@[t]
                        == best_from(*s, needle@, hay@, n - x, y - 1, t),
                row@.len() == qi,
                forall|y: int| 0 <= y < qi ==> (#[trigger] row@[y])@.len() == bcap + 1,
                forall|y: int, t: int|
                    0 <= y < qi && 0 <= t <= bcap ==> #[trigger] row@[y]@[t] == best_from(
                        *s,
                        needle@,
                        hay@,
                        i as int,
                        y - 1,
                        t,
                    ),
            decreases m + 1 - qi,
        {
            let mut trow: Vec<i64> = Vec::new();
            let mut t: usize = 0;
            while t <= bcap
                invariant
                    n == needle@.len(),
                    m == hay@.len(),
                    1 <= n <= m,
                    m <= MAX_LEN,
                    bcap < n,
                    a <= n,
                    i == n - a,
                    qi <= m,
                    t <= bcap + 1,
                    tab@.len() == a,
                    forall|x: int| 0 <= x < a ==> (#[trigger] tab@[x])@.len() == m + 1,
                    forall|x: int, y: int|
                        0 <= x < a && 0 <= y <= m ==> (#[trigger] tab@[x]@[y])@.len() == bcap + 1,
                    forall|x: int, y: int, tt: int|
                        0 <= x < a && 0 <= y <= m && 0 <= tt <= bcap ==> #[trigger] tab@[x]@[y]@[tt]
                            == best_from(*s, needle@, hay@, n - x, y - 1, tt),
                    trow@.len() == t,
                    forall|tt: int|
                        0 <= tt < t ==> #[trigger] trow@[tt] == best_from(
                            *s,
                            needle@,
                            hay@,
                            i as int,
                            qi - 1,
                            tt,
                        ),
                decreases bcap + 1 - t,
            {
                let v: i64;
                if i == n {
                    v = 0;
                } else {
                    let pmax = m - (n - i);
                    if qi > pmax {
                        v = NEG_INF;
                    } else {
                        let mut acc: i64 = NEG_INF;
                        let mut p: usize = pmax + 1;
                        while p > qi
                            invariant
                                n == needle@.len(),
                                m == hay@.len(),
                                1 <= n <= m,
                                m <= MAX_LEN,
                                bcap < n,
                                a <= n,
                                i == n - a,
                                i < n,
                                t <= bcap,
                                qi <= pmax,
                                pmax == m - (n - i),
                                qi <= p,
                                p <= pmax + 1,
                                tab@.len() == a,
                                forall|x: int| 0 <= x < a ==> (#[trigger] tab@[x])@.len() == m + 1,
                                forall|x: int, y: int|
                                    0 <= x < a && 0 <= y <= m ==> (#[trigger] tab@[x]@[y])@.len()
                                        == bcap + 1,
                                forall|x: int, y: int, tt: int|
                                    0 <= x < a && 0 <= y <= m && 0 <= tt <= bcap ==> #[trigger] tab@[x]@[y]@[tt] == best_from(
                                        *s,
                                        needle@,
                                        hay@,
                                        n - x,
                                        y - 1,
                                        tt,
                                    ),
                                acc == bfp(*s, needle@, hay@, i as int, qi - 1, t as int, p as int),
                            decreases p,
                        {
                            p = p - 1;
                            let d: usize = if ci_eq_exec(needle[i], hay[p]) {
                                0
                            } else {
                                1
                            };
                            let here: i64;
                            if d <= t {
                                proof {
                                    assert(tab@[a - 1]@[p + 1]@[t - d] == best_from(
                                        *s,
                                        needle@,
                                        hay@,
                                        i as int + 1,
                                        p as int,
                                        t - d,
                                    ));
                                    lemma_best_bounds(
                                        *s,
                                        needle@,
                                        hay@,
                                        i as int + 1,
                                        p as int,
                                        t - d,
                                    );
                                }
                                let sub = tab[a - 1][p + 1][t - d];
                                if sub != NEG_INF {
                                    proof {
                                        lemma_gap_cost_bound(*s, p - (qi - 1) - 1);
                                    }
                                    let base = char_base_exec(s, needle, hay, i, p);
                                    let gapc: i64 = if i == 0 {
                                        0
                                    } else {
                                        gap_cost_exec(s, p - qi)
                                    };
                                    here = base - gapc + sub;
                                    proof {
                                        assert(here == step_score(
                                            *s,
                                            needle@,
                                            hay@,
                                            i as int,
                                            qi - 1,
                                            p as int,
                                        ) + sub);
                                    }
                                } else {
                                    here = NEG_INF;
                                }
                            } else {
                                here = NEG_INF;
                            }
                            proof {
                                assert(here == here_of(
                                    *s,
                                    needle@,
                                    hay@,
                                    i as int,
                                    qi - 1,
                                    t as int,
                                    p as int,
                                ));
                            }
                            acc = if here > acc {
                                here
                            } else {
                                acc
                            };
                        }
                        v = acc;
                    }
                }
                trow.push(v);
                t = t + 1;
            }
            row.push(trow);
            qi = qi + 1;
        }
        tab.push(row);
        a = a + 1;
    }
    tab
}

/// Recover, from the optimum table, an alignment attaining the optimum.
#[verifier::rlimit(100)]
pub fn score_traceback(
    s: &Scoring,
    needle: &Vec<char>,
    hay: &Vec<char>,
    tab: &Vec<Vec<Vec<i64>>>,
    bcap: usize,
) -> (w: Vec<usize>)
    requires
        1 <= needle@.len() <= hay@.len(),
        hay@.len() <= MAX_LEN,
        bcap < needle@.len(),
        score_table_ok(tab@, *s, needle@, hay@, bcap as int),
        best_from(*s, needle@, hay@, 0, -1, bcap as int) != NEG_INF as int,
    ensures
        is_alignment(needle@, hay@, w@),
        typo_count(needle@, hay@, w@) <= bcap as int,
        score_pre(*s, needle@, hay@, w@, needle@.len() as int) == best_from(
            *s,
            needle@,
            hay@,
            0,
            -1,
            bcap as int,
        ),
        forall|o: Seq<usize>|
            #[trigger] attains_best(
                *s,
                needle@,
                hay@,
                bcap as int,
                best_from(*s, needle@, hay@, 0, -1, bcap as int),
                o,
            ) ==> lex_le(w@, o),
{
    let n = needle.len();
    let m = hay.len();
    let ghost best0 = best_from(*s, needle@, hay@, 0, -1, bcap as int);
    let mut w: Vec<usize> = Vec::new();
    let mut i: usize = 0;
    let mut qi: usize = 0;
    let mut t: usize = bcap;
    while i < n
        invariant
            n == needle@.len(),
            m == hay@.len(),
            1 <= n <= m,
            m <= MAX_LEN,
            bcap < n,
            score_table_ok(tab@, *s, needle@, hay@, bcap as int),
            best0 == best_from(*s, needle@, hay@, 0, -1, bcap as int),
            i <= n,
            qi <= m,
            t <= bcap,
            w@.len() == i,
            forall|x: int| 0 <= x < i ==> (#[trigger] w@[x]) < hay@.len(),
            forall|x: int| 0 < x < i ==> w@[x - 1] < #[trigger] w@[x],
            i > 0 ==> w@[i - 1] == qi - 1,
            i == 0 ==> qi == 0,
            score_pre(*s, needle@, hay@, w@, i as int) + best_from(
                *s,
                needle@,
                hay@,
                i as int,
                qi - 1,
                t as int,
            ) == best0,
            typos_pre(needle@, hay@, w@, i as int) == bcap - t,
            best_from(*s, needle@, hay@, i as int, qi - 1, t as int) != NEG_INF as int,
            forall|o: Seq<usize>|
                #[trigger] attains_best(*s, needle@, hay@, bcap as int, best0, o)
                    ==> prefix_or_gt(w@, o, i as int),
        decreases n - i,
    {
        let ghost q = qi as int - 1;
        let cellv = tab[n - i][qi][t];
        proof {
            assert(cellv == best_from(*s, needle@, hay@, i as int, q, t as int));
        }
        let pmax = m - (n - i);
        if qi > pmax {
            proof {
                assert(best_from(*s, needle@, hay@, i as int, q, t as int) == NEG_INF as int);
                assert(false);
            }
        }
        let mut p: usize = qi;
        let mut taken = false;
        let mut dtk: usize = 0;
        while !taken
            invariant
                n == needle@.len(),
                m == hay@.len(),
                1 <= n <= m,
                m <= MAX_LEN,
                bcap < n,
                i < n,
                t <= bcap,
                qi <= pmax,
                pmax == m - (n - i),
                q == qi as int - 1,
                score_table_ok(tab@, *s, needle@, hay@, bcap as int),
                cellv == best_from(*s, needle@, hay@, i as int, q, t as int),
                cellv != NEG_INF as int,
                qi <= p,
                !taken ==> p <= pmax && bfp(*s, needle@, hay@, i as int, q, t as int, p as int)
                    == cellv,
                forall|pp: int|
                    qi <= pp < p ==> #[trigger] here_of(
                        *s,
                        needle@,
                        hay@,
                        i as int,
                        q,
                        t as int,
                        pp,
                    ) < cellv,
                taken ==> ({
                    let d: int = if ci_eq(needle@[i as int], hay@[p as int]) {
                        0
                    } else {
                        1
                    };
                    &&& p <= pmax
                    &&& dtk == d
                    &&& d <= t
                    &&& best_from(*s, needle@, hay@, i as int + 1, p as int, t - dtk)
                        != NEG_INF as int
                    &&& cellv == step_score(*s, needle@, hay@, i as int, q, p as int) + best_from(
                        *s,
                        needle@,
                        hay@,
                        i as int + 1,
                        p as int,
                        t - dtk,
                    )
                }),
            decreases 2 * (pmax - p) + (if taken {
                0int
            } else {
                1int
            }),
        {
            let d: usize = if ci_eq_exec(needle[i], hay[p]) {
                0
            } else {
                1
            };
            let here: i64;
            if d <= t {
                proof {
                    assert(tab@[n - (i + 1)]@[p + 1]@[t - d] == best_from(
                        *s,
                        needle@,
                        hay@,
                        i as int + 1,
                        p as int,
                        t - d,
                    ));
                    lemma_best_bounds(*s, needle@, hay@, i as int + 1, p as int, t - d);
                }
                let sub = tab[n - (i + 1)][p + 1][t - d];
                if sub != NEG_INF {
                    proof {
                        lemma_gap_cost_bound(*s, p - q - 1);
                    }
                    let base = char_base_exec(s, needle, hay, i, p);
                    let gapc: i64 = if i == 0 {
                        0
                    } else {
                        gap_cost_exec(s, p - qi)
                    };
                    here = base - gapc + sub;
                    proof {
                        assert(here == step_score(*s, needle@, hay@, i as int, q, p as int) + sub);
                    }
                } else {
                    here = NEG_INF;
                }
            } else {
                here = NEG_INF;
            }
            proof {
                assert(here == here_of(*s, needle@, hay@, i as int, q, t as int, p as int));
            }
            if here == cellv {
                taken = true;
                dtk = d;
            } else {
                proof {
                    // the maximum is attained further right
                    assert(here_of(*s, needle@, hay@, i as int, q, t as int, p as int) <= bfp(
                        *s,
                        needle@,
                        hay@,
                        i as int,
                        q,
                        t as int,
                        p as int,
                    ));
                    assert(bfp(*s, needle@, hay@, i as int, q, t as int, p as int + 1) == cellv);
                    if p == pmax {
                        assert(bfp(*s, needle@, hay@, i as int, q, t as int, p as int + 1)
                            == NEG_INF as int);
                        assert(false);
                    }
                }
                p = p + 1;
            }
        }
        let ghost oldw = w@;
        proof {
            lemma_typos_pre_push(needle@, hay@, w@, p, i as int);
            lemma_score_pre_push(*s, needle@, hay@, w@, p, i as int);
        }
        w.push(p);
        proof {
            assert(w@ == oldw.push(p));
            assert(w@[i as int] == p);
            if i > 0 {
                assert(w@[i as int - 1] == oldw[i as int - 1]);
            }
            assert(contrib_at(*s, needle@, hay@, w@, i as int) == step_score(
                *s,
                needle@,
                hay@,
                i as int,
                q,
                p as int,
            ));
            assert(score_pre(*s, needle@, hay@, w@, i as int + 1) == score_pre(
                *s,
                needle@,
                hay@,
                w@,
                i as int,
            ) + contrib_at(*s, needle@, hay@, w@, i as int));
            assert forall|o: Seq<usize>|
                #[trigger] attains_best(*s, needle@, hay@, bcap as int, best0, o) implies prefix_or_gt(
                w@,
                o,
                i as int + 1,
            ) by {
                if forall|tt: int| 0 <= tt < i ==> o[tt] == #[trigger] oldw[tt] {
                    let pp = o[i as int] as int;
                    if i > 0 {
                        assert(o[i as int - 1] == oldw[i as int - 1]);
                    }
                    assert(pp > q);
                    if pp < p {
                        // a same-prefix alignment choosing an earlier position
                        // cannot attain the optimum: its worth was scanned and
                        // found short
                        lemma_score_pre_congruent(*s, needle@, hay@, o, oldw, i as int);
                        lemma_typos_pre_congruent(needle@, hay@, o, oldw, i as int);
                        lemma_pre_suf_typos(needle@, hay@, o, i as int);
                        lemma_suf_counts(needle@, hay@, o, i as int + 1);
                        let dd: int = if ci_eq(needle@[i as int], hay@[pp]) {
                            0int
                        } else {
                            1int
                        };
                        assert(typos_suf(needle@, hay@, o, i as int) == dd + typos_suf(
                            needle@,
                            hay@,
                            o,
                            i as int + 1,
                        ));
                        assert forall|u: int|
                            i + 1 <= u < o.len() implies pp < #[trigger] o[u] && o[u]
                            < hay@.len() by {
                            lemma_inc_lb(o, i as int, u);
                        }
                        lemma_best_from_upper(
                            *s,
                            needle@,
                            hay@,
                            o,
                            i as int + 1,
                            pp,
                            t as int - dd,
                        );
                        lemma_score_suf_bound(*s, needle@, hay@, o, i as int + 1, pp);
                        lemma_best_bounds(*s, needle@, hay@, i as int + 1, pp, t as int - dd);
                        assert(best_from(*s, needle@, hay@, i as int + 1, pp, t as int - dd)
                            != NEG_INF as int);
                        assert(contrib_at(*s, needle@, hay@, o, i as int) == step_score(
                            *s,
                            needle@,
                            hay@,
                            i as int,
                            q,
                            pp,
                        ));
                        assert(score_suf(*s, needle@, hay@, o, i as int) == contrib_at(
                            *s,
                            needle@,
                            hay@,
                            o,
                            i as int,
                        ) + score_suf(*s, needle@, hay@, o, i as int + 1));
                        assert(score_suf(*s, needle@, hay@, o, i as int) <= here_of(
                            *s,
                            needle@,
                            hay@,
                            i as int,
                            q,
                            t as int,
                            pp,
                        ));
                        lemma_score_pre_suf(*s, needle@, hay@, o, i as int);
                        assert(here_of(*s, needle@, hay@, i as int, q, t as int, pp) < cellv);
                        assert(false);
                    } else if pp == p as int {
                        assert forall|tt: int| 0 <= tt < i + 1 implies o[tt] == #[trigger] w@[tt] by {
                            if tt < i {
                                assert(o[tt] == oldw[tt]);
                            }
                        }
                    } else {
                        assert(lex_lt_at(w@, o, i as int)) by {
                            assert forall|tt: int| 0 <= tt < i implies w@[tt] == #[trigger] o[tt] by {
                                assert(o[tt] == oldw[tt]);
                            }
                        }
                    }
                } else {
                    let j = choose|j: int| 0 <= j < i && #[trigger] lex_lt_at(oldw, o, j);
                    assert(lex_lt_at(w@, o, j)) by {
                        assert forall|tt: int| 0 <= tt < j implies w@[tt] == #[trigger] o[tt] by {
                            assert(oldw[tt] == o[tt]);
                        }
                        assert(w@[j] == oldw[j]);
                    }
                }
            }
        }
        i = i + 1;
        qi = p + 1;
        t = t - dtk;
    }
    proof {
        assert forall|o: Seq<usize>|
            #[trigger] attains_best(*s, needle@, hay@, bcap as int, best0, o) implies lex_le(
            w@,
            o,
        ) by {
            if forall|tt: int| 0 <= tt < n ==> o[tt] == #[trigger] w@[tt] {
                assert(o =~= w@);
            } else {
                let j = choose|j: int| 0 <= j < n && #[trigger] lex_lt_at(w@, o, j);
                assert(lex_lt_at(w@, o, j));
            }
        }
    }
    w
}

/// The prefix score reads only the first `i` entries of the index sequence,
/// so appending an entry leaves it unchanged.
proof fn lemma_score_pre_push(s: Scoring, n: Seq<char>, h: Seq<char>, idx: Seq<usize>, x: usize, i: int)
    requires
        0 <= i <= idx.len(),
    ensures
        score_pre(s, n, h, idx.push(x), i) == score_pre(s, n, h, idx, i),
    decreases i,
{
    if i > 0 {
        lemma_score_pre_push(s, n, h, idx, x, i - 1);
        assert(idx.push(x)[i - 1] == idx[i - 1]);
        if i - 1 > 0 {
            assert(idx.push(x)[i - 2] == idx[i - 2]);
        }
        assert(contrib_at(s, n, h, idx.push(x), i - 1) == contrib_at(s, n, h, idx, i - 1));
    }
}

} // verus!
