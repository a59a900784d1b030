//! Orchestration over a collection of haystacks: screen with the prefilter,
//! align the survivors, and return the match records, optionally sorted by
//! descending score (stable: ties keep the original haystack order).

use vstd::prelude::*;

use crate::MAX_LEN;
use crate::align::match_one;
use crate::model::alignment_score;
use crate::model::feasible;
use crate::model::is_alignment;
use crate::model::lex_le;
use crate::model::optimal_result;
use crate::model::within_budget;
use crate::prefilter::prefilter_pass;
use crate::scoring::Config;
use crate::text::chars_of;

verus! {

/// One surviving haystack: its position in the input collection, its score,
/// and the haystack positions its needle characters matched at.
pub struct MatchResult {
    pub index: usize,
    pub score: i64,
    pub indices: Vec<usize>,
}

/// Ranking order: higher score first, ties broken by original input order.
pub open spec fn better(a: MatchResult, b: MatchResult) -> bool {
    a.score > b.score || (a.score == b.score && a.index < b.index)
}

/// The record occurs in the sequence.
pub open spec fn appears(rec: MatchResult, v: Seq<MatchResult>) -> bool {
    exists|u: int| 0 <= u < v.len() && rec == (#[trigger] v[u])
}

/// Some record in the sequence reports haystack `x`.
pub open spec fn has_index(x: int, v: Seq<MatchResult>) -> bool {
    exists|u: int| 0 <= u < v.len() && (#[trigger] v[u]).index == x
}

proof fn lemma_appears(rec: MatchResult, v: Seq<MatchResult>, u: int)
    requires
        0 <= u < v.len(),
        rec == v[u],
    ensures
        appears(rec, v),
{
    assert(rec == v[u]);
}

proof fn lemma_has_index(x: int, v: Seq<MatchResult>, u: int)
    requires
        0 <= u < v.len(),
        v[u].index == x,
    ensures
        has_index(x, v),
{
    assert(v[u].index == x);
}

/// What one returned record promises about the input it came from: the
/// haystack is feasible, and the record carries a valid within-budget
/// alignment whose exact score no other acceptable alignment of that pair
/// exceeds.
pub open spec fn row_ok(r: MatchResult, n: Seq<char>, hs: Seq<String>, c: Config) -> bool {
    &&& r.index < hs.len()
    &&& feasible(n, hs[r.index as int]@, c.max_typos)
    &&& optimal_result(c.scoring, n, hs[r.index as int]@, c.max_typos, r.indices@, r.score as int)
}

/// The full contract of `match_list`: every record is sound, exactly the
/// feasible haystacks are reported (whether or not the prefilter ran), no
/// haystack twice, and the order is the input order — or, when sorting, the
/// strict ranking order.
pub open spec fn match_list_post(res: Seq<MatchResult>, n: Seq<char>, hs: Seq<String>, c: Config) -> bool {
    &&& forall|t: int| 0 <= t < res.len() ==> row_ok(#[trigger] res[t], n, hs, c)
    &&& forall|i: int|
        0 <= i < hs.len() ==> (feasible(n, (#[trigger] hs[i])@, c.max_typos) <==> has_index(i, res))
    &&& forall|t1: int, t2: int|
        0 <= t1 < t2 < res.len() ==> (#[trigger] res[t1]).index != (#[trigger] res[t2]).index
    &&& (!c.sort ==> forall|t1: int, t2: int|
        0 <= t1 < t2 < res.len() ==> (#[trigger] res[t1]).index < (#[trigger] res[t2]).index)
    &&& (c.sort ==> forall|t1: int, t2: int|
        0 <= t1 < t2 < res.len() ==> better(#[trigger] res[t1], #[trigger] res[t2]))
}

/// Executable twin of `better`.
fn better_exec(a: &MatchResult, b: &MatchResult) -> (r: bool)
    ensures
        r == better(*a, *b),
{
    a.score > b.score || (a.score == b.score && a.index < b.index)
}

/// Stable descending sort of the collected records by `better`, by repeated
/// selection of the best remaining record.  Indices must be pairwise
/// distinct, which makes `better` a strict total order on the records.
#[verifier::rlimit(100)]
fn sort_results(v: Vec<MatchResult>) -> (r: Vec<MatchResult>)
    requires
        forall|t1: int, t2: int|
            0 <= t1 < t2 < v@.len() ==> (#[trigger] v@[t1]).index != (#[trigger] v@[t2]).index,
    ensures
        r@.len() == v@.len(),
        forall|t: int| 0 <= t < r@.len() ==> appears(#[trigger] r@[t], v@),
        forall|t: int| 0 <= t < v@.len() ==> has_index((#[trigger] v@[t]).index as int, r@),
        forall|t1: int, t2: int|
            0 <= t1 < t2 < r@.len() ==> better(#[trigger] r@[t1], #[trigger] r@[t2]),
        forall|t1: int, t2: int|
            0 <= t1 < t2 < r@.len() ==> (#[trigger] r@[t1]).index != (#[trigger] r@[t2]).index,
{
    let mut rem = v;
    let mut out: Vec<MatchResult> = Vec::new();
    proof {
        assert forall|t: int| 0 <= t < rem@.len() implies appears(#[trigger] rem@[t], v@) by {
            lemma_appears(rem@[t], v@, t);
        }
        assert forall|t: int|
            0 <= t < v@.len() implies (appears(#[trigger] v@[t], out@) || appears(
            v@[t],
            rem@,
        )) by {
            lemma_appears(v@[t], rem@, t);
        }
    }
    while rem.len() > 0
        invariant
            out@.len() + rem@.len() == v@.len(),
            forall|t: int| 0 <= t < out@.len() ==> appears(#[trigger] out@[t], v@),
            forall|t: int| 0 <= t < rem@.len() ==> appears(#[trigger] rem@[t], v@),
            forall|t: int|
                0 <= t < v@.len() ==> (appears(#[trigger] v@[t], out@) || appears(v@[t], rem@)),
            forall|t1: int, t2: int|
                0 <= t1 < t2 < out@.len() ==> (#[trigger] out@[t1]).index != (#[trigger] out@[t2]).index,
            forall|t1: int, t2: int|
                0 <= t1 < t2 < rem@.len() ==> (#[trigger] rem@[t1]).index != (#[trigger] rem@[t2]).index,
            forall|t: int, u: int|
                0 <= t < out@.len() && 0 <= u < rem@.len() ==> (#[trigger] out@[t]).index != (
                #[trigger] rem@[u]).index,
            forall|t1: int, t2: int|
                0 <= t1 < t2 < out@.len() ==> better(#[trigger] out@[t1], #[trigger] out@[t2]),
            forall|t: int, u: int|
                0 <= t < out@.len() && 0 <= u < rem@.len() ==> better(
                    #[trigger] out@[t],
                    #[trigger] rem@[u],
                ),
        decreases rem@.len(),
    {
        let mut best: usize = 0;
        let mut u: usize = 1;
        while u < rem.len()
            invariant
                rem@.len() > 0,
                best < u <= rem@.len(),
                forall|x: int| 0 <= x < u && x != best ==> better(rem@[best as int], #[trigger] rem@[x]),
                forall|t1: int, t2: int|
                    0 <= t1 < t2 < rem@.len() ==> (#[trigger] rem@[t1]).index != (#[trigger] rem@[t2]).index,
            decreases rem@.len() - u,
        {
            if better_exec(&rem[u], &rem[best]) {
                best = u;
            } else {
                proof {
                    assert(rem@[best as int].index != rem@[u as int].index);
                }
            }
            u = u + 1;
        }
        let ghost orem = rem@;
        let ghost oout = out@;
        let x = rem.remove(best);
        out.push(x);
        proof {
            orem.remove_ensures(best as int);
            assert(out@ == oout.push(x));
            assert(rem@ == orem.remove(best as int));
            assert forall|t: int| 0 <= t < rem@.len() implies appears(#[trigger] rem@[t], v@) by {
                let s: int = if t < best { t } else { t + 1 };
                assert(rem@[t] == orem[s]);
                assert(appears(orem[s], v@));
            }
            assert forall|t: int| 0 <= t < out@.len() implies appears(#[trigger] out@[t], v@) by {
                if t < oout.len() {
                    assert(out@[t] == oout[t]);
                    assert(appears(oout[t], v@));
                } else {
                    assert(out@[t] == orem[best as int]);
                    assert(appears(orem[best as int], v@));
                }
            }
            assert forall|t: int|
                0 <= t < v@.len() implies (appears(#[trigger] v@[t], out@) || appears(
                v@[t],
                rem@,
            )) by {
                if appears(v@[t], oout) {
                    let u0 = choose|u0: int| 0 <= u0 < oout.len() && v@[t] == (#[trigger] oout[u0]);
                    assert(out@[u0] == oout[u0]);
                    lemma_appears(v@[t], out@, u0);
                } else {
                    let u0 = choose|u0: int| 0 <= u0 < orem.len() && v@[t] == (#[trigger] orem[u0]);
                    if u0 == best {
                        assert(out@[oout.len() as int] == orem[best as int]);
                        lemma_appears(v@[t], out@, oout.len() as int);
                    } else if u0 < best {
                        assert(rem@[u0] == orem[u0]);
                        lemma_appears(v@[t], rem@, u0);
                    } else {
                        assert(rem@[u0 - 1] == orem[u0]);
                        lemma_appears(v@[t], rem@, u0 - 1);
                    }
                }
            }
            assert forall|t1: int, t2: int|
                0 <= t1 < t2 < rem@.len() implies (#[trigger] rem@[t1]).index != (#[trigger] rem@[t2]).index by {
                let s1: int = if t1 < best { t1 } else { t1 + 1 };
                let s2: int = if t2 < best { t2 } else { t2 + 1 };
                assert(rem@[t1] == orem[s1]);
                assert(rem@[t2] == orem[s2]);
            }
            assert forall|t: int, uu: int|
                0 <= t < out@.len() && 0 <= uu < rem@.len() implies (#[trigger] out@[t]).index != (
            #[trigger] rem@[uu]).index by {
                let s: int = if uu < best { uu } else { uu + 1 };
                assert(rem@[uu] == orem[s]);
                if t < oout.len() {
                    assert(out@[t] == oout[t]);
                } else {
                    assert(out@[t] == orem[best as int]);
                }
            }
            assert forall|t: int, uu: int|
                0 <= t < out@.len() && 0 <= uu < rem@.len() implies better(
                #[trigger] out@[t],
                #[trigger] rem@[uu],
            ) by {
                let s: int = if uu < best { uu } else { uu + 1 };
                assert(rem@[uu] == orem[s]);
                if t < oout.len() {
                    assert(out@[t] == oout[t]);
                } else {
                    assert(out@[t] == orem[best as int]);
                    assert(s != best);
                }
            }
        }
    }
    proof {
        assert forall|t: int|
            0 <= t < v@.len() implies has_index((#[trigger] v@[t]).index as int, out@) by {
            assert(appears(v@[t], out@));
            let u0 = choose|u0: int| 0 <= u0 < out@.len() && v@[t] == (#[trigger] out@[u0]);
            lemma_has_index(v@[t].index as int, out@, u0);
        }
    }
    out
}

/// Match one needle against many haystacks, with prefiltering, typo budget,
/// and optional ranking, as configured.
#[verifier::rlimit(100)]
pub fn match_list(needle: &str, haystacks: &Vec<String>, config: &Config) -> (res: Vec<MatchResult>)
    requires
        needle@.len() <= MAX_LEN,
        forall|i: int| 0 <= i < haystacks@.len() ==> (#[trigger] haystacks@[i])@.len() <= MAX_LEN,
    ensures
        match_list_post(res@, needle@, haystacks@, *config),
{
    let nch = chars_of(needle);
    let mut out: Vec<MatchResult> = Vec::new();
    let mut i: usize = 0;
    while i < haystacks.len()
        invariant
            nch@ == needle@,
            needle@.len() <= MAX_LEN,
            forall|x: int| 0 <= x < haystacks@.len() ==> (#[trigger] haystacks@[x])@.len() <= MAX_LEN,
            i <= haystacks@.len(),
            forall|t: int| 0 <= t < out@.len() ==> row_ok(#[trigger] out@[t], needle@, haystacks@, *config),
            forall|x: int|
                0 <= x < i ==> (feasible(needle@, (#[trigger] haystacks@[x])@, config.max_typos)
                    ==> has_index(x, out@)),
            forall|t: int| 0 <= t < out@.len() ==> (#[trigger] out@[t]).index < i,
            forall|t1: int, t2: int|
                0 <= t1 < t2 < out@.len() ==> (#[trigger] out@[t1]).index < (#[trigger] out@[t2]).index,
        decreases haystacks@.len() - i,
    {
        let hch = chars_of(haystacks[i].as_str());
        let keep = if config.prefilter {
            prefilter_pass(&nch, &hch, config.max_typos)
        } else {
            true
        };
        let ghost oout = out@;
        if keep {
            match match_one(&nch, &hch, &config.scoring, config.max_typos) {
                Some(p) => {
                    let (sc, idx) = p;
                    out.push(MatchResult { index: i, score: sc, indices: idx });
                },
                None => {},
            }
        }
        proof {
            assert(hch@ == haystacks@[i as int]@);
            assert forall|x: int|
                0 <= x < i + 1 && feasible(
                needle@,
                (#[trigger] haystacks@[x])@,
                config.max_typos,
            ) implies has_index(x, out@) by {
                if x < i {
                    let t0 = choose|t: int| 0 <= t < oout.len() && (#[trigger] oout[t]).index == x;
                    assert(out@[t0] == oout[t0]);
                    lemma_has_index(x, out@, t0);
                } else {
                    lemma_has_index(x, out@, out@.len() - 1);
                }
            }
        }
        i = i + 1;
    }
    if config.sort {
        let sorted = sort_results(out);
        proof {
            assert forall|t: int|
                0 <= t < sorted@.len() implies row_ok(
                #[trigger] sorted@[t],
                needle@,
                haystacks@,
                *config,
            ) by {
                assert(appears(sorted@[t], out@));
                let u = choose|u: int| 0 <= u < out@.len() && sorted@[t] == (#[trigger] out@[u]);
                assert(row_ok(out@[u], needle@, haystacks@, *config));
            }
            assert forall|x: int|
                0 <= x < haystacks@.len() implies (feasible(
                needle@,
                (#[trigger] haystacks@[x])@,
                config.max_typos,
            ) <==> has_index(x, sorted@)) by {
                if feasible(needle@, haystacks@[x]@, config.max_typos) {
                    assert(has_index(x, out@));
                    let t0 = choose|t: int| 0 <= t < out@.len() && (#[trigger] out@[t]).index == x;
                    assert(has_index(out@[t0].index as int, sorted@));
                }
                if has_index(x, sorted@) {
                    let t0 = choose|t: int|
                        0 <= t < sorted@.len() && (#[trigger] sorted@[t]).index == x;
                    assert(appears(sorted@[t0], out@));
                    let w0 = choose|w: int| 0 <= w < out@.len() && sorted@[t0] == (#[trigger] out@[w]);
                    assert(row_ok(out@[w0], needle@, haystacks@, *config));
                }
            }
        }
        sorted
    } else {
        proof {
            assert forall|x: int|
                0 <= x < haystacks@.len() && has_index(x, out@) implies feasible(
                needle@,
                (#[trigger] haystacks@[x])@,
                config.max_typos,
            ) by {
                let t0 = choose|t: int| 0 <= t < out@.len() && (#[trigger] out@[t]).index == x;
                assert(row_ok(out@[t0], needle@, haystacks@, *config));
            }
        }
        out
    }
}

/// Match one needle against a single haystack: the canonical
/// highest-scoring matched positions on success, or `None` when no
/// alignment fits the typo budget.
pub fn match_indices(needle: &str, haystack: &str, config: &Config) -> (r: Option<Vec<usize>>)
    requires
        needle@.len() <= MAX_LEN,
        haystack@.len() <= MAX_LEN,
    ensures
        (r is Some) == feasible(needle@, haystack@, config.max_typos),
        r matches Some(idx) ==> is_alignment(needle@, haystack@, idx@) && within_budget(
            needle@,
            haystack@,
            idx@,
            config.max_typos,
        ) && (forall|other: Seq<usize>|
            is_alignment(needle@, haystack@, other) && within_budget(
                needle@,
                haystack@,
                other,
                config.max_typos,
            ) ==> (alignment_score(config.scoring, needle@, haystack@, other) <= alignment_score(
            config.scoring,
            needle@,
            haystack@,
            idx@,
        ) && (alignment_score(config.scoring, needle@, haystack@, other) == alignment_score(
            config.scoring,
            needle@,
            haystack@,
            idx@,
        ) ==> lex_le(idx@, other)))),
        needle@.len() == 0 ==> (r matches Some(idx) && idx@.len() == 0),
{
    let nch = chars_of(needle);
    let hch = chars_of(haystack);
    if config.prefilter {
        if !prefilter_pass(&nch, &hch, config.max_typos) {
            return None;
        }
    }
    match match_one(&nch, &hch, &config.scoring, config.max_typos) {
        Some(p) => {
            let (_sc, idx) = p;
            Some(idx)
        },
        None => None,
    }
}

} // verus!
