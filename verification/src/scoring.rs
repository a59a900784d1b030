//! Weight tables and behaviour switches for the matching engine.

use vstd::prelude::*;

verus! {

/// Immutable weight table governing the alignment cost function.  All weights
/// are non-negative and bounded (`u16`), so that accumulated scores stay far
/// from `i64` overflow for any input the engine accepts.
pub struct Scoring {
    pub match_score: u16,
    pub mismatch_penalty: u16,
    pub gap_open_penalty: u16,
    pub gap_extend_penalty: u16,
    pub prefix_bonus: u16,
    pub offset_prefix_bonus: u16,
    pub capitalization_bonus: u16,
    pub matching_case_bonus: u16,
    pub exact_match_bonus: u16,
    pub delimiter_bonus: u16,
    /// Characters treated as word/segment separators; membership test only,
    /// duplicates are harmless.
    pub delimiters: Vec<char>,
}

/// The documented baseline weights, field by field.  They keep the word-
/// boundary bonuses within the bounds that `lemma_exact_match_dominance`
/// needs: capitalization is at most matching-case, and offset-prefix plus
/// delimiter is at most both the prefix bonus and the exact-match bonus.
pub open spec fn is_default_scoring(s: Scoring) -> bool {
    &&& s.match_score == 16u16
    &&& s.mismatch_penalty == 4u16
    &&& s.gap_open_penalty == 3u16
    &&& s.gap_extend_penalty == 1u16
    &&& s.prefix_bonus == 8u16
    &&& s.offset_prefix_bonus == 4u16
    &&& s.capitalization_bonus == 2u16
    &&& s.matching_case_bonus == 4u16
    &&& s.exact_match_bonus == 8u16
    &&& s.delimiter_bonus == 2u16
    &&& s.delimiters@ == seq![' ', '/', '.', ',', '_', '-', ':']
}

impl Default for Scoring {
    /// Deterministic baseline weights usable with no configuration.
    fn default() -> (r: Scoring)
        ensures
            is_default_scoring(r),
    {
        let mut delimiters: Vec<char> = Vec::new();
        delimiters.push(' ');
        delimiters.push('/');
        delimiters.push('.');
        delimiters.push(',');
        delimiters.push('_');
        delimiters.push('-');
        delimiters.push(':');
        proof {
            assert(delimiters@ =~= seq![' ', '/', '.', ',', '_', '-', ':']);
        }
        Scoring {
            match_score: 16,
            mismatch_penalty: 4,
            gap_open_penalty: 3,
            gap_extend_penalty: 1,
            prefix_bonus: 8,
            offset_prefix_bonus: 4,
            capitalization_bonus: 2,
            matching_case_bonus: 4,
            exact_match_bonus: 8,
            delimiter_bonus: 2,
            delimiters,
        }
    }
}

impl Scoring {
    /// Partial-override construction: every omitted field falls back to the
    /// corresponding field of the default instance.
    pub fn custom(
        match_score: Option<u16>,
        mismatch_penalty: Option<u16>,
        gap_open_penalty: Option<u16>,
        gap_extend_penalty: Option<u16>,
        prefix_bonus: Option<u16>,
        offset_prefix_bonus: Option<u16>,
        capitalization_bonus: Option<u16>,
        matching_case_bonus: Option<u16>,
        exact_match_bonus: Option<u16>,
        delimiter_bonus: Option<u16>,
        delimiters: Option<Vec<char>>,
    ) -> (r: Scoring)
        ensures
            r.match_score == match match_score { Some(v) => v, None => 16u16 },
            r.mismatch_penalty == match mismatch_penalty { Some(v) => v, None => 4u16 },
            r.gap_open_penalty == match gap_open_penalty { Some(v) => v, None => 3u16 },
            r.gap_extend_penalty == match gap_extend_penalty { Some(v) => v, None => 1u16 },
            r.prefix_bonus == match prefix_bonus { Some(v) => v, None => 8u16 },
            r.offset_prefix_bonus == match offset_prefix_bonus { Some(v) => v, None => 4u16 },
            r.capitalization_bonus == match capitalization_bonus { Some(v) => v, None => 2u16 },
            r.matching_case_bonus == match matching_case_bonus { Some(v) => v, None => 4u16 },
            r.exact_match_bonus == match exact_match_bonus { Some(v) => v, None => 8u16 },
            r.delimiter_bonus == match delimiter_bonus { Some(v) => v, None => 2u16 },
            match delimiters {
                Some(d) => r.delimiters@ == d@,
                None => r.delimiters@ == seq![' ', '/', '.', ',', '_', '-', ':'],
            },
    {
        let mut r = Scoring::default();
        if let Some(v) = match_score {
            r.match_score = v;
        }
        if let Some(v) = mismatch_penalty {
            r.mismatch_penalty = v;
        }
        if let Some(v) = gap_open_penalty {
            r.gap_open_penalty = v;
        }
        if let Some(v) = gap_extend_penalty {
            r.gap_extend_penalty = v;
        }
        if let Some(v) = prefix_bonus {
            r.prefix_bonus = v;
        }
        if let Some(v) = offset_prefix_bonus {
            r.offset_prefix_bonus = v;
        }
        if let Some(v) = capitalization_bonus {
            r.capitalization_bonus = v;
        }
        if let Some(v) = matching_case_bonus {
            r.matching_case_bonus = v;
        }
        if let Some(v) = exact_match_bonus {
            r.exact_match_bonus = v;
        }
        if let Some(v) = delimiter_bonus {
            r.delimiter_bonus = v;
        }
        if let Some(d) = delimiters {
            r.delimiters = d;
        }
        r
    }
}

/// Behaviour switches wrapping a `Scoring`.
pub struct Config {
    /// Run the cheap rejection test before alignment.
    pub prefilter: bool,
    /// `None` tolerates unlimited mismatched needle characters; `Some(n)`
    /// caps the number of mismatches allowed in an accepted alignment.
    pub max_typos: Option<u16>,
    /// Sort the result list by descending score (stable: ties keep the
    /// original haystack order).
    pub sort: bool,
    pub scoring: Scoring,
}

impl Default for Config {
    /// Deterministic baseline behaviour: prefilter on, unlimited typos,
    /// sorted results, default weights.
    fn default() -> (r: Config)
        ensures
            r.prefilter == true,
            r.max_typos is None,
            r.sort == true,
            is_default_scoring(r.scoring),
    {
        Config { prefilter: true, max_typos: None, sort: true, scoring: Scoring::default() }
    }
}

impl Config {
    /// Partial-override construction over the default instance; a supplied
    /// `Scoring` replaces the default weights wholesale.
    pub fn custom(prefilter: Option<bool>, max_typos: Option<Option<u16>>, sort: Option<bool>, scoring: Option<Scoring>) -> (r: Config)
        ensures
            r.prefilter == match prefilter { Some(v) => v, None => true },
            r.max_typos == match max_typos { Some(v) => v, None => Option::<u16>::None },
            r.sort == match sort { Some(v) => v, None => true },
            match scoring {
                Some(s) => r.scoring == s,
                None => is_default_scoring(r.scoring),
            },
    {
        let mut r = Config::default();
        if let Some(v) = prefilter {
            r.prefilter = v;
        }
        if let Some(v) = max_typos {
            r.max_typos = v;
        }
        if let Some(v) = sort {
            r.sort = v;
        }
        if let Some(s) = scoring {
            r.scoring = s;
        }
        r
    }
}

} // verus!
