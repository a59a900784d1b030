//! A fuzzy string-matching engine: weighted subsequence alignment of a query
//! ("needle") against candidate strings ("haystacks"), with configurable
//! scoring, a cheap prefilter, a typo budget, and ranked results.

mod align;
mod laws;
mod model;
mod optimal;
mod prefilter;
mod ranker;
mod scoring;
mod text;

pub use crate::scoring::Config;
pub use crate::scoring::Scoring;
pub use crate::scoring::is_default_scoring;
pub use crate::ranker::MatchResult;
pub use crate::ranker::match_list;
pub use crate::ranker::match_indices;
pub use crate::align::match_one;
pub use crate::align::eval_score;
pub use crate::prefilter::prefilter_pass;

use vstd::prelude::*;

verus! {

/// Upper bound on needle and haystack lengths accepted by the engine, chosen
/// so that accumulated scores stay far away from `i64` overflow.
pub const MAX_LEN: usize = 0x100000;

} // verus!
