//! Scoring one entry name against a query: the ordered rule set of
//! substring tiers and fuzzy fallback.

use vstd::prelude::*;
use crate::text::contains_chars;
use crate::text::has_substring;
use crate::text::lower;
use crate::text::lower_of;
use crate::text::normal_of;
use crate::text::normalize;
use crate::text::to_chars;

verus! {

/// The score the fuzzy matcher assigns to a candidate text against a query
/// pattern, or `None` when the pattern is no fuzzy match for the text.
/// Left abstract: the reward shape (contiguous runs, word-boundary starts)
/// is the matcher's own; for a fixed configuration it is a function of the
/// two texts alone.
pub uninterp spec fn fuzzy_of(choice: Seq<char>, pattern: Seq<char>) -> Option<i64>;

/// Relies on `fuzzy_matcher`'s `SkimMatcherV2` under its default
/// configuration, whose `fuzzy_match` score depends on the two texts alone.
#[verifier::external_body]
pub(crate) fn fuzzy_chars(choice: &Vec<char>, pattern: &Vec<char>) -> (r: Option<i64>)
    ensures
        r == fuzzy_of(choice@, pattern@),
{
    let c: String = choice.iter().collect();
    let p: String = pattern.iter().collect();
    fuzzy_matcher::FuzzyMatcher::fuzzy_match(
        &fuzzy_matcher::skim::SkimMatcherV2::default(),
        &c,
        &p,
    )
}

/// The larger of two optional scores, a present score beating an absent one.
pub open spec fn opt_max(a: Option<i64>, b: Option<i64>) -> Option<i64> {
    match (a, b) {
        (Some(x), Some(y)) => if x >= y {
            Some(x)
        } else {
            Some(y)
        },
        (Some(x), None) => Some(x),
        (None, Some(y)) => Some(y),
        (None, None) => None,
    }
}

/// The score of an entry name against a query, both taken through case
/// folding, with `ql` the folded query and `qn` its normalized form.  The
/// first rule that fires wins: verbatim substring, normalized substring,
/// then the best fuzzy score over the verbatim and normalized pairs; an
/// entry that no rule accepts gets no score and is no candidate.
pub open spec fn entry_score(name: Seq<char>, ql: Seq<char>, qn: Seq<char>) -> Option<i64> {
    let nl = lower_of(name);
    let nn = normal_of(nl);
    if has_substring(nl, ql) {
        Some(10000i64)
    } else if has_substring(nn, qn) {
        Some(9000i64)
    } else {
        opt_max(fuzzy_of(nl, ql), fuzzy_of(nn, qn))
    }
}

/// Scores one entry name against the folded query `ql` and its normalized
/// form `qn`.
pub fn score_name(name: &str, ql: &Vec<char>, qn: &Vec<char>) -> (r: Option<i64>)
    ensures
        r == entry_score(name@, ql@, qn@),
{
    let low = lower(name);
    let nl = to_chars(low.as_str());
    if contains_chars(&nl, ql) {
        return Some(10000);
    }
    let nn = normalize(&nl);
    if contains_chars(&nn, qn) {
        return Some(9000);
    }
    let a = fuzzy_chars(&nl, ql);
    let b = fuzzy_chars(&nn, qn);
    match (a, b) {
        (Some(x), Some(y)) => if x >= y {
            Some(x)
        } else {
            Some(y)
        },
        (Some(x), None) => Some(x),
        (None, Some(y)) => Some(y),
        (None, None) => None,
    }
}

} // verus!
