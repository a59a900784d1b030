use fuzzy_match::Config;
use fuzzy_match::Scoring;
use fuzzy_match::match_indices;
use fuzzy_match::match_list;
use fuzzy_match::match_one;

fn chars(s: &str) -> Vec<char> {
    s.chars().collect()
}

#[test]
fn default_scoring_values() {
    let s = Scoring::default();
    assert_eq!(s.match_score, 16);
    assert_eq!(s.mismatch_penalty, 4);
    assert_eq!(s.gap_open_penalty, 3);
    assert_eq!(s.gap_extend_penalty, 1);
    assert_eq!(s.prefix_bonus, 8);
    assert_eq!(s.offset_prefix_bonus, 4);
    assert_eq!(s.capitalization_bonus, 2);
    assert_eq!(s.matching_case_bonus, 4);
    assert_eq!(s.exact_match_bonus, 8);
    assert_eq!(s.delimiter_bonus, 2);
    assert_eq!(s.delimiters, vec![' ', '/', '.', ',', '_', '-', ':']);
}

#[test]
fn default_config_values() {
    let c = Config::default();
    assert!(c.prefilter);
    assert_eq!(c.max_typos, None);
    assert!(c.sort);
    assert_eq!(c.scoring.match_score, 16);
}

#[test]
fn custom_scoring_partial_override() {
    let s = Scoring::custom(
        Some(20),
        None,
        None,
        None,
        Some(0),
        None,
        None,
        None,
        None,
        None,
        Some(vec!['@']),
    );
    assert_eq!(s.match_score, 20);
    assert_eq!(s.mismatch_penalty, 4);
    assert_eq!(s.prefix_bonus, 0);
    assert_eq!(s.delimiters, vec!['@']);
}

#[test]
fn custom_config_partial_override() {
    let c = Config::custom(Some(false), Some(Some(2)), None, None);
    assert!(!c.prefilter);
    assert_eq!(c.max_typos, Some(2));
    assert!(c.sort);
    assert_eq!(c.scoring.match_score, 16);
}

#[test]
fn empty_needle_matches_everything() {
    let c = Config::default();
    assert_eq!(match_indices("", "whatever", &c), Some(vec![]));
    assert_eq!(match_indices("", "", &c), Some(vec![]));
    let r = match_one(&chars(""), &chars("abc"), &Scoring::default(), None).unwrap();
    assert_eq!(r.0, 0);
    assert_eq!(r.1, Vec::<usize>::new());
    let list = match_list("", &vec!["a".to_string(), "b".to_string()], &c);
    assert_eq!(list.len(), 2);
    assert!(list.iter().all(|m| m.score == 0 && m.indices.is_empty()));
}

#[test]
fn exact_match_identity_indices() {
    let c = Config::default();
    assert_eq!(match_indices("rt", "rt", &c), Some(vec![0, 1]));
}

#[test]
fn exact_match_outscores_longer_haystack() {
    let d = Scoring::default();
    let exact = match_one(&chars("rt"), &chars("rt"), &d, None).unwrap();
    // two matches with matching case, a prefix bonus, and the per-character
    // exact bonus
    assert_eq!(exact.0, 2 * (16 + 4) + 8 + 2 * 8);
    let longer = match_one(&chars("rt"), &chars("rot"), &d, None).unwrap();
    assert!(exact.0 > longer.0);
}

#[test]
fn indices_strictly_increasing_within_bounds() {
    let c = Config::default();
    let idx = match_indices("fb", "foobar", &c).unwrap();
    assert_eq!(idx.len(), 2);
    for w in idx.windows(2) {
        assert!(w[0] < w[1]);
    }
    assert!(idx.iter().all(|&p| p < "foobar".len()));
}

#[test]
fn prefilter_does_not_change_results() {
    let hs: Vec<String> =
        vec!["report".into(), "cart".into(), "xyz".into(), "sort".into(), "".into()];
    for &typos in &[None, Some(0u16), Some(1u16)] {
        let on = Config::custom(Some(true), Some(typos), Some(false), None);
        let off = Config::custom(Some(false), Some(typos), Some(false), None);
        let r_on = match_list("rt", &hs, &on);
        let r_off = match_list("rt", &hs, &off);
        assert_eq!(r_on.len(), r_off.len());
        for (a, b) in r_on.iter().zip(r_off.iter()) {
            assert_eq!(a.index, b.index);
            assert_eq!(a.score, b.score);
            assert_eq!(a.indices, b.indices);
        }
    }
}

#[test]
fn repeated_calls_agree_with_single_pair() {
    let c = Config::custom(None, None, Some(false), None);
    let hs: Vec<String> = vec!["report".into(), "cart".into()];
    let listed = match_list("rt", &hs, &c);
    for m in listed.iter() {
        let single = match_indices("rt", &hs[m.index], &c).unwrap();
        assert_eq!(m.indices, single);
    }
}

#[test]
fn sorted_scores_non_increasing_unsorted_keeps_order() {
    let hs: Vec<String> = vec!["report".into(), "cart".into(), "sort".into()];
    let sorted_cfg = Config::custom(None, None, Some(true), None);
    let unsorted_cfg = Config::custom(None, None, Some(false), None);
    let ranked = match_list("rt", &hs, &sorted_cfg);
    assert_eq!(ranked.len(), 3);
    for w in ranked.windows(2) {
        assert!(w[0].score >= w[1].score);
    }
    let plain = match_list("rt", &hs, &unsorted_cfg);
    let order: Vec<usize> = plain.iter().map(|m| m.index).collect();
    assert_eq!(order, vec![0, 1, 2]);
}

#[test]
fn zero_typos_is_exact_subsequence_matching() {
    let c = Config::custom(None, Some(Some(0)), None, None);
    assert!(match_indices("ac", "abc", &c).is_some());
    assert!(match_indices("AC", "abc", &c).is_some());
    assert_eq!(match_indices("ax", "abc", &c), None);
    assert_eq!(match_indices("ca", "abc", &c), None);
}

#[test]
fn typo_budget_allows_bounded_mismatches() {
    let strict = Config::custom(None, Some(Some(0)), None, None);
    let lax = Config::custom(None, Some(Some(1)), None, None);
    assert_eq!(match_indices("ab", "xb", &strict), None);
    assert!(match_indices("ab", "xb", &lax).is_some());
}

#[test]
fn gap_and_prefix_scoring_example() {
    let d = Scoring::default();
    let r = match_one(&chars("fb"), &chars("foobar"), &d, None).unwrap();
    assert_eq!(r.1, vec![0, 3]);
    // f at 0: match + matching case + prefix; b at 3: match + matching case;
    // a gap of two: one open plus one extend
    assert_eq!(r.0, (16 + 4 + 8) + (16 + 4) - (3 + 1));
}

#[test]
fn disjoint_characters_do_not_match() {
    let c = Config::default();
    assert_eq!(match_indices("abc", "xyz", &c), None);
}

#[test]
fn match_list_ranks_all_candidates() {
    let hs: Vec<String> = vec!["report".into(), "cart".into(), "sort".into()];
    let ranked = match_list("rt", &hs, &Config::default());
    assert_eq!(ranked.len(), 3);
    let mut seen: Vec<usize> = ranked.iter().map(|m| m.index).collect();
    seen.sort();
    assert_eq!(seen, vec![0, 1, 2]);
    for w in ranked.windows(2) {
        assert!(w[0].score >= w[1].score);
    }
}

#[test]
fn needle_longer_than_haystack_never_matches() {
    let c = Config::default();
    assert_eq!(match_indices("abc", "ab", &c), None);
    assert_eq!(match_indices("a", "", &c), None);
}

#[test]
fn equal_haystacks_both_reported() {
    let hs: Vec<String> = vec!["sort".into(), "sort".into()];
    let r = match_list("sort", &hs, &Config::custom(None, None, Some(true), None));
    assert_eq!(r.len(), 2);
    assert_eq!(r[0].score, r[1].score);
    // stable: ties keep input order
    assert_eq!(r[0].index, 0);
    assert_eq!(r[1].index, 1);
}

#[test]
fn delimiter_bonus_rewards_word_starts() {
    let d = Scoring::default();
    let after_delim = match_one(&chars("b"), &chars("a_b"), &d, None).unwrap();
    let mid_word = match_one(&chars("b"), &chars("axb"), &d, None).unwrap();
    // after a delimiter: match + matching case + offset-prefix + delimiter
    assert_eq!(after_delim.0, 16 + 4 + 4 + 2);
    assert_eq!(mid_word.0, 16 + 4);
}

#[test]
fn capitalization_bonus_rewards_camel_case() {
    let d = Scoring::default();
    let r = match_one(&chars("b"), &chars("aB"), &d, None).unwrap();
    // case-insensitive match + capitalization + camel-case word start
    assert_eq!(r.0, 16 + 2 + 4);
}

#[test]
fn optimum_prefers_word_boundary() {
    let d = Scoring::default();
    // 'ab' occurs twice in 'xab_ab'; the occurrence after the delimiter
    // outscores the mid-word occurrence, and the maximal score is returned
    let r = match_one(&chars("ab"), &chars("xab_ab"), &d, None).unwrap();
    assert_eq!(r.1, vec![4, 5]);
    // a after '_': match + matching case + offset-prefix + delimiter;
    // b adjacent: match + matching case; against 20 + 20 mid-word
    assert_eq!(r.0, (16 + 4 + 4 + 2) + (16 + 4));
}

#[test]
fn exact_match_dominates_longer_haystacks() {
    // the needle itself ranks strictly above a delimiter-rich longer
    // haystack, by virtue of the per-character exact-match bonus
    let hs: Vec<String> = vec!["a_b_c".into(), "abc".into()];
    let r = match_list("abc", &hs, &Config::custom(None, None, Some(true), None));
    assert_eq!(r.len(), 2);
    assert_eq!(r[0].index, 1);
    assert_eq!(r[0].score, 3 * (16 + 4) + 8 + 3 * 8);
    assert_eq!(r[1].index, 0);
    assert_eq!(r[1].score, (16 + 4 + 8) + 2 * (16 + 4 + 4 + 2) - 2 * 3);
    assert!(r[0].score > r[1].score);
}

#[test]
fn mismatch_penalty_lowers_score() {
    let d = Scoring::default();
    let lax = Some(1u16);
    let r = match_one(&chars("ab"), &chars("xb"), &d, lax).unwrap();
    // one mismatched needle character, one cased match
    assert_eq!(r.1.len(), 2);
    assert_eq!(r.0, -4 + (16 + 4));
}
