//! Match outcomes and how they are stored.
use vstd::prelude::*;

use crate::channel::Channel;
use crate::playlist::{clone_opt, or_else};
use crate::provider::kind_name;
use crate::text::{append_str, chars_of, opt_view, string_of};

verus! {

#[derive(Debug, Clone, Copy, PartialEq, Eq, Structural)]
pub enum Confidence {
    High,
    Medium,
    Low,
    Review,
    Rejected,
}

#[derive(Debug, Clone, Copy, PartialEq, Eq, Structural)]
pub enum MatchDecision {
    Matched,
    NeedsReview,
    Rejected,
}

pub open spec fn decision_name(d: MatchDecision) -> Seq<char> {
    match d {
        MatchDecision::Matched => "matched"@,
        MatchDecision::NeedsReview => "review"@,
        MatchDecision::Rejected => "rejected"@,
    }
}

/// The stored name of a match decision.
pub fn decision_to_str(decision: &MatchDecision) -> (res: &'static str)
    ensures
        res@ == decision_name(*decision),
{
    match decision {
        MatchDecision::Matched => "matched",
        MatchDecision::NeedsReview => "review",
        MatchDecision::Rejected => "rejected",
    }
}

/// Distinct decisions are stored under distinct names.
pub proof fn law_decision_names_distinct(a: MatchDecision, b: MatchDecision)
    ensures
        decision_name(a) == decision_name(b) ==> a == b,
{
    reveal_strlit("matched");
    reveal_strlit("review");
    reveal_strlit("rejected");
    if decision_name(a) == decision_name(b) && a != b {
        assert(decision_name(a).len() != decision_name(b).len() || decision_name(a)[0] != decision_name(
            b,
        )[0]);
    }
}

/// The debug name of a confidence level, as stored with a match.
pub open spec fn confidence_name(c: Confidence) -> Seq<char> {
    match c {
        Confidence::High => "High"@,
        Confidence::Medium => "Medium"@,
        Confidence::Low => "Low"@,
        Confidence::Review => "Review"@,
        Confidence::Rejected => "Rejected"@,
    }
}

/// The name a confidence level is stored under (its `Debug` text).
pub fn confidence_to_str(confidence: &Confidence) -> (res: &'static str)
    ensures
        res@ == confidence_name(*confidence),
{
    match confidence {
        Confidence::High => "High",
        Confidence::Medium => "Medium",
        Confidence::Low => "Low",
        Confidence::Review => "Review",
        Confidence::Rejected => "Rejected",
    }
}

/// What a confident match makes of a source channel and its target.
pub struct UnifiedFields {
    pub canonical_name: String,
    pub display_name: String,
    pub tvg_id: Option<String>,
    pub language: Option<String>,
    pub country: Option<String>,
    pub group: Option<String>,
    pub category: Option<String>,
    pub quality: Option<String>,
    pub logo: Option<String>,
    pub stream_url: Option<String>,
    pub confidence_source: String,
}

fn first_some(a: &Option<String>, b: &Option<String>) -> (res: Option<String>)
    ensures
        opt_view(res) == or_else(opt_view(*a), opt_view(*b)),
{
    match a {
        Some(x) => Some(x.clone()),
        None => clone_opt(b),
    }
}

/// The fields of the unified channel of a confident match: the source's
/// name; the target's tvg id and stream where it has them, else the
/// source's; the source's language, country, group, category, quality and
/// logo where it has them, else the target's; and the two providers named
/// as `source+target`.
pub fn unify_fields(source: &Channel, target: &Channel) -> (res: UnifiedFields)
    ensures
        res.canonical_name@ == source.name@,
        res.display_name@ == source.name@,
        opt_view(res.tvg_id) == or_else(opt_view(target.tvg_id), opt_view(source.tvg_id)),
        opt_view(res.language) == or_else(opt_view(source.language), opt_view(target.language)),
        opt_view(res.country) == or_else(opt_view(source.country), opt_view(target.country)),
        opt_view(res.group) == or_else(opt_view(source.group), opt_view(target.group)),
        opt_view(res.category) == or_else(opt_view(source.category), opt_view(target.category)),
        opt_view(res.quality) == or_else(opt_view(source.quality), opt_view(target.quality)),
        opt_view(res.logo) == or_else(opt_view(source.logo), opt_view(target.logo)),
        opt_view(res.stream_url) == or_else(opt_view(target.stream_url), opt_view(source.stream_url)),
        res.confidence_source@ == kind_name(source.provider) + "+"@ + kind_name(target.provider),
{
    let mut cs = chars_of(source.provider.as_str());
    append_str(&mut cs, "+");
    append_str(&mut cs, target.provider.as_str());
    UnifiedFields {
        canonical_name: source.name.clone(),
        display_name: source.name.clone(),
        tvg_id: first_some(&target.tvg_id, &source.tvg_id),
        language: first_some(&source.language, &target.language),
        country: first_some(&source.country, &target.country),
        group: first_some(&source.group, &target.group),
        category: first_some(&source.category, &target.category),
        quality: first_some(&source.quality, &target.quality),
        logo: first_some(&source.logo, &target.logo),
        stream_url: first_some(&target.stream_url, &source.stream_url),
        confidence_source: string_of(&cs),
    }
}

} // verus!
