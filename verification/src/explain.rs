//! What to do with one path: the rule that covers it and the recommended next command.

use crate::globs::glob_match;
#[allow(unused_imports)]
use crate::globs::glob_matches;
use crate::model::{CheckResult, Rule, IMMEDIATE_THRESHOLD};
#[allow(unused_imports)]
use crate::model::{rule_views, RuleView};
use crate::paths::expand_home;
#[allow(unused_imports)]
use crate::paths::expanded;
use crate::text::to_decimal;
#[allow(unused_imports)]
use crate::text::decimal;
use vstd::prelude::*;

verus! {

// ---------------------------------------------------------------------------
// Recovery labels
// ---------------------------------------------------------------------------
pub open spec fn recovery_label(recovery: Seq<char>, seconds: Option<u32>) -> Seq<char> {
    match seconds {
        None => recovery,
        Some(s) => if s < 60 {
            recovery + " · ~"@ + decimal(s as nat) + "s"@
        } else if s < 3600 {
            recovery + " · ~"@ + decimal(s as nat / 60) + " min"@
        } else {
            recovery + " · ~"@ + decimal(s as nat / 3600) + " hr"@
        },
    }
}

/// A recovery class with its duration, such as `rebuild · ~2 min`.
pub fn format_recovery(recovery: &str, seconds: Option<u32>) -> (r: String)
    ensures
        r@ == recovery_label(recovery@, seconds),
{
    let mut out: String = recovery.to_owned();
    if let Some(s) = seconds {
        out.append(" · ~");
        if s < 60 {
            let n: String = to_decimal(s as u64);
            out.append(n.as_str());
            out.append("s");
        } else if s < 3600 {
            let n: String = to_decimal((s / 60) as u64);
            out.append(n.as_str());
            out.append(" min");
        } else {
            let n: String = to_decimal((s / 3600) as u64);
            out.append(n.as_str());
            out.append(" hr");
        }
    }
    out
}

// ---------------------------------------------------------------------------
// Percentages
// ---------------------------------------------------------------------------
/// Millionths as a whole percentage, rounded to the nearest, halves to the even one.
pub open spec fn percent(millionths: u32) -> nat {
    let whole = millionths as nat / 10_000;
    let rest = millionths as nat % 10_000;
    if rest > 5_000 || (rest == 5_000 && whole % 2 == 1) {
        whole + 1
    } else {
        whole
    }
}

pub fn to_percent(millionths: u32) -> (r: u32)
    ensures
        r == percent(millionths),
{
    let whole: u32 = millionths / 10_000;
    let rest: u32 = millionths % 10_000;
    if rest > 5_000 || (rest == 5_000 && whole % 2 == 1) {
        whole + 1
    } else {
        whole
    }
}

// ---------------------------------------------------------------------------
// The recommendation
// ---------------------------------------------------------------------------
pub open spec fn recommendation(
    path: Seq<char>,
    confidence: Option<u32>,
    safe: bool,
) -> Seq<char> {
    if !safe {
        "Do not delete — pressure test failed. See `diskspace inspect "@ + path
            + "` for the failing check."@
    } else {
        match confidence {
            Some(c) => if c >= IMMEDIATE_THRESHOLD {
                "Reclaim: `diskspace airlock <id> --immediate --yes`  (confidence "@ + decimal(
                    percent(c),
                ) + "%, safe to delete permanently)"@
            } else {
                "Airlock (reversible): `diskspace airlock <id>`  (confidence "@ + decimal(
                    percent(c),
                ) + "% — below 0.85 threshold for permanent delete)"@
            },
            None => "Reversible: `diskspace airlock "@ + path
                + "`  (no rule matched, but the pressure-test is clean — fully reversible)"@,
        }
    }
}

/// Recommends a next command from the confidence that applies and the verdict of the pressure
/// test. No confidence means that no rule matched.
pub fn recommended_command_for(
    path: &str,
    confidence: Option<u32>,
    pressure: &CheckResult,
) -> (r: String)
    ensures
        r@ == recommendation(path@, confidence, pressure.safe),
{
    if !pressure.safe {
        let mut out: String =
            "Do not delete — pressure test failed. See `diskspace inspect ".to_owned();
        out.append(path);
        out.append("` for the failing check.");
        return out;
    }
    match confidence {
        Some(c) => {
            let p: String = to_decimal(to_percent(c) as u64);
            if c >= IMMEDIATE_THRESHOLD {
                let mut out: String =
                    "Reclaim: `diskspace airlock <id> --immediate --yes`  (confidence ".to_owned();
                out.append(p.as_str());
                out.append("%, safe to delete permanently)");
                out
            } else {
                let mut out: String =
                    "Airlock (reversible): `diskspace airlock <id>`  (confidence ".to_owned();
                out.append(p.as_str());
                out.append("% — below 0.85 threshold for permanent delete)");
                out
            }
        },
        None => {
            let mut out: String = "Reversible: `diskspace airlock ".to_owned();
            out.append(path);
            out.append(
                "`  (no rule matched, but the pressure-test is clean — fully reversible)",
            );
            out
        },
    }
}

/// Recommends a next command for a path and the rule that covers it, if any.
pub fn recommended_command(path: &str, matched: Option<&Rule>, pressure: &CheckResult) -> (r:
    String)
    ensures
        r@ == recommendation(
            path@,
            match matched {
                Some(rule) => Some(rule.base_confidence),
                None => None,
            },
            pressure.safe,
        ),
{
    let confidence: Option<u32> = match matched {
        Some(rule) => Some(rule.base_confidence),
        None => None,
    };
    recommended_command_for(path, confidence, pressure)
}

// ---------------------------------------------------------------------------
// The rule of a path
// ---------------------------------------------------------------------------
/// The position of the first `true`.
pub open spec fn first_true(hits: Seq<bool>) -> Option<nat>
    decreases hits.len(),
{
    if hits.len() == 0 {
        None
    } else {
        match first_true(hits.drop_last()) {
            Some(i) => Some(i),
            None => if hits.last() {
                Some((hits.len() - 1) as nat)
            } else {
                None
            },
        }
    }
}

/// The first position that is marked.
pub fn first_hit(hits: &Vec<bool>) -> (r: Option<usize>)
    ensures
        match r {
            Some(i) => first_true(hits@) == Some(i as nat) && i < hits@.len() && hits@[i as int],
            None => first_true(hits@) is None,
        },
{
    let mut i: usize = 0;
    while i < hits.len()
        invariant
            i <= hits@.len(),
            first_true(hits@.take(i as int)) is None,
        decreases hits.len() - i,
    {
        assert(hits@.take(i + 1).drop_last() =~= hits@.take(i as int));
        if hits[i] {
            proof {
                lemma_first_true_stays(hits@, i + 1);
            }
            return Some(i);
        }
        i += 1;
    }
    assert(hits@.take(i as int) =~= hits@);
    None
}

proof fn lemma_first_true_stays(hits: Seq<bool>, k: int)
    requires
        0 <= k <= hits.len(),
        first_true(hits.take(k)) is Some,
    ensures
        first_true(hits) == first_true(hits.take(k)),
    decreases hits.len() - k,
{
    if k < hits.len() {
        assert(hits.take(k + 1).drop_last() =~= hits.take(k));
        lemma_first_true_stays(hits, k + 1);
    } else {
        assert(hits.take(k) =~= hits);
    }
}

/// Which patterns of the rules, with the home directory filled in, accept the path.
pub open spec fn pattern_hits(rules: Seq<RuleView>, path: Seq<char>, home: Seq<char>) -> Seq<
    bool,
> {
    rules.map_values(|r: RuleView| glob_matches(expanded(r.path_pattern, home), path))
}

/// Which rules accept the path.
pub fn rule_hits(rules: &Vec<Rule>, path: &str, home: &str) -> (r: Vec<bool>)
    ensures
        r@ == pattern_hits(rule_views(rules@), path@, home@),
{
    let mut out: Vec<bool> = Vec::new();
    let mut i: usize = 0;
    while i < rules.len()
        invariant
            i <= rules@.len(),
            out@.len() == i,
            forall|j: int|
                0 <= j < i ==> #[trigger] out@[j] == glob_matches(
                    expanded(rules@[j].path_pattern@, home@),
                    path@,
                ),
        decreases rules.len() - i,
    {
        let pattern: String = expand_home(rules[i].path_pattern.as_str(), home);
        out.push(glob_match(pattern.as_str(), path));
        i += 1;
    }
    assert(out@ =~= pattern_hits(rule_views(rules@), path@, home@));
    out
}

/// The position of the first rule that covers a path.
pub fn find_rule(path: &str, rules: &Vec<Rule>, home: &str) -> (r: Option<usize>)
    ensures
        match r {
            Some(i) => first_true(pattern_hits(rule_views(rules@), path@, home@)) == Some(
                i as nat,
            ) && i < rules@.len(),
            None => first_true(pattern_hits(rule_views(rules@), path@, home@)) is None,
        },
{
    let hits: Vec<bool> = rule_hits(rules, path, home);
    first_hit(&hits)
}

/// Resolves a target that the user typed: a leading `~` stands for the home directory.
pub fn expand_target(target: &str, home: &str) -> (r: String)
    ensures
        r@ == expanded(target@, home@),
{
    expand_home(target, home)
}

/// A path that fails the pressure test is never recommended for removal, whatever its
/// confidence.
pub proof fn unsafe_is_never_recommended(path: Seq<char>, a: Option<u32>, b: Option<u32>)
    ensures
        recommendation(path, a, false) == recommendation(path, b, false),
        recommendation(path, a, false)
            == "Do not delete — pressure test failed. See `diskspace inspect "@ + path
            + "` for the failing check."@,
{
}

/// A path that passes the pressure test is recommended for a permanent delete only from the
/// threshold on; below it, and where no rule matched, the advice can be taken back.
pub proof fn unsure_is_kept_reversible(path: Seq<char>, confidence: Option<u32>)
    requires
        confidence is Some ==> confidence->0 < IMMEDIATE_THRESHOLD,
    ensures
        recommendation(path, confidence, true) == match confidence {
            Some(c) => "Airlock (reversible): `diskspace airlock <id>`  (confidence "@ + decimal(
                percent(c),
            ) + "% — below 0.85 threshold for permanent delete)"@,
            None => "Reversible: `diskspace airlock "@ + path
                + "`  (no rule matched, but the pressure-test is clean — fully reversible)"@,
        },
{
}

} // verus!
