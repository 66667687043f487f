//! The fields that agents read on a candidate: its consequence contract, a reference link and
//! measurements.

use crate::model::{Candidate, ConsequenceContract, Consequences, Metrics, Rule};
#[allow(unused_imports)]
use crate::model::{CandidateView, ConsequencesView, ContractView, RuleView};
use crate::text::{as_str_option, copy_option};
#[allow(unused_imports)]
use crate::text::opt_str_view;
use vstd::prelude::*;

verus! {

/// The release that the reference links point into.
pub const VERSION: &'static str = "0.9.0";

/// The link of a rule: its own where it declares one, else one into the rules of this release.
pub open spec fn url_of(rule_id: Seq<char>, rule_url: Option<Seq<char>>) -> Seq<char> {
    match rule_url {
        Some(u) if u.len() > 0 => u,
        _ => "https://github.com/tymrtn/diskspace/blob/v"@ + VERSION@ + "/rules/builtin.yaml#"@
            + rule_id,
    }
}

pub open spec fn contract_of(
    cons: ConsequencesView,
    rule_id: Seq<char>,
    rule_url: Option<Seq<char>>,
) -> ContractView {
    ContractView {
        recovery_class: cons.recovery,
        recovery_cost_seconds: cons.rebuild_seconds,
        impact: cons.impact,
        recovery_cmd: cons.recovery_cmd,
        reference_url: Some(url_of(rule_id, rule_url)),
    }
}

/// A measurement that says something, or nothing.
pub open spec fn signal(measured: Option<Metrics>) -> Option<Metrics> {
    match measured {
        Some(m) if !m.silent() => Some(m),
        _ => None,
    }
}

/// A candidate with the fields that agents read; all its other fields stay.
pub open spec fn enriched(
    c: CandidateView,
    rule: RuleView,
    measured: Option<Metrics>,
) -> CandidateView {
    CandidateView {
        consequence_contract: match c.consequences {
            Some(k) => Some(contract_of(k, rule.id, rule.reference_url)),
            None => None,
        },
        metrics: signal(measured),
        reference_url: Some(url_of(rule.id, rule.reference_url)),
        ..c
    }
}

/// The link of a rule: its own where it declares one, else one into the rules of this release.
pub fn reference_url(rule_id: &str, rule_url: Option<&str>) -> (r: String)
    ensures
        r@ == url_of(rule_id@, opt_str_view(rule_url)),
{
    if let Some(u) = rule_url {
        if !u.is_empty() {
            return u.to_owned();
        }
    }
    let mut out: String = "https://github.com/tymrtn/diskspace/blob/v".to_owned();
    out.append(VERSION);
    out.append("/rules/builtin.yaml#");
    out.append(rule_id);
    out
}

/// Flattens a rule's consequences into the contract that agents read.
pub fn contract_from_consequences(
    cons: &Consequences,
    rule_id: &str,
    rule_url: Option<&str>,
) -> (r: ConsequenceContract)
    ensures
        r@ == contract_of(cons@, rule_id@, opt_str_view(rule_url)),
{
    ConsequenceContract {
        recovery_class: cons.recovery.as_str().to_owned(),
        recovery_cost_seconds: cons.rebuild_seconds,
        impact: cons.impact.as_str().to_owned(),
        recovery_cmd: copy_option(&cons.recovery_cmd),
        reference_url: Some(reference_url(rule_id, rule_url)),
    }
}

/// Fills in the fields that agents read. `measured` is what the measurement log says of the
/// candidate's path; a measurement without any signal is left out.
pub fn enrich_candidate(c: &mut Candidate, rule: &Rule, measured: Option<Metrics>)
    ensures
        final(c)@ == enriched(old(c)@, rule@, measured),
{
    let url: String = reference_url(rule.id.as_str(), as_str_option(&rule.reference_url));
    let contract: Option<ConsequenceContract> = match &c.consequences {
        Some(cons) => Some(
            contract_from_consequences(
                cons,
                rule.id.as_str(),
                as_str_option(&rule.reference_url),
            ),
        ),
        None => None,
    };
    c.consequence_contract = contract;
    c.metrics = match measured {
        Some(m) => if m.has_no_signal() {
            None
        } else {
            Some(m)
        },
        None => None,
    };
    c.reference_url = Some(url);
}

/// Enrichment leaves the numbers that rank a candidate as they were.
pub proof fn enrichment_keeps_score(c: CandidateView, rule: RuleView, measured: Option<Metrics>)
    ensures
        enriched(c, rule, measured).size_bytes == c.size_bytes,
        enriched(c, rule, measured).confidence == c.confidence,
        enriched(c, rule, measured).score() == c.score(),
{
}

/// The contract of an enriched candidate names the recovery class that its rule declares.
pub proof fn enrichment_keeps_recovery_class(
    c: CandidateView,
    rule: RuleView,
    measured: Option<Metrics>,
)
    requires
        c.consequences is Some,
    ensures
        enriched(c, rule, measured).recovery_class() == c.consequences->0.recovery,
{
}

} // verus!
