//! What holds of every proposal that a rule makes of an entry.

use crate::agent_surface::{contract_of, url_of};
use crate::detect::{
    candidates_of, category_named, fnv, hit_table, marked, measured_at, proposable, proposals,
    proposed, risk_rank, row, row_marks, selected, settled, shield, survey_of, Survey,
};
use crate::detect_laws::{every_proposal_covered, lemma_proposal_origin, only_proposals_listed};
use crate::globs::glob_matches;
use crate::model::{
    days_between, entry_views, CandidateView, Category, ConsequencesView, EntryView, Metrics,
    Profile, ProfileView, RuleView, ScanResult,
};
use crate::paths::{expanded, parts, under};
use crate::text::hexadecimal;
use vstd::prelude::*;

verus! {

/// A rule proposes an entry exactly where the entry holds something, is as large as the profile
/// asks, is neither shielded nor at or beneath a path that is never to be suggested, and was not
/// accessed or modified within the days that the rule allows for, unless what the rule finds comes
/// back by itself.
pub proof fn proposed_exactly_where_allowed(
    rule: RuleView,
    entry: EntryView,
    prof: ProfileView,
    now: i64,
    shielded: bool,
)
    ensures
        ({
            let accessed = rule.exclude_if_recent_access_days is Some && entry.accessed is Some
                && days_between(now, entry.accessed->0) < rule.exclude_if_recent_access_days->0;
            let modified = rule.exclude_if_recent_modified_days is Some && entry.modified is Some
                && days_between(now, entry.modified->0) < rule.exclude_if_recent_modified_days->0;
            let regrows = rule.consequences is Some && {
                let class = rule.consequences->0.recovery;
                class == "auto"@ || class == "redownload"@ || class == "rebuild"@ || class
                    == "recreate"@
            };
            proposable(rule, entry, prof, now, shielded) <==> {
                &&& entry.size_bytes > 0
                &&& entry.size_bytes >= prof.min_candidate_bytes
                &&& !shielded
                &&& forall|i: int|
                    0 <= i < prof.never_suggest.len() ==> !parts(
                        #[trigger] prof.never_suggest[i],
                    ).is_prefix_of(parts(entry.path))
                &&& accessed || modified ==> regrows
            }
        }),
{
    reveal_strlit("auto");
    reveal_strlit("redownload");
    reveal_strlit("rebuild");
    reveal_strlit("recreate");
    assert("auto"@.len() == 4 && "redownload"@.len() == 10 && "rebuild"@.len() == 7
        && "recreate"@.len() == 8);
    if crate::detect::suggestion_barred(entry.path, prof.never_suggest) {
        let i = choose|i: int|
            0 <= i < prof.never_suggest.len() && under(
                entry.path,
                #[trigger] prof.never_suggest[i],
            );
        assert(parts(prof.never_suggest[i]).is_prefix_of(parts(entry.path)));
    }
    if exists|i: int|
        0 <= i < prof.never_suggest.len() && parts(
            #[trigger] prof.never_suggest[i],
        ).is_prefix_of(parts(entry.path)) {
        let i = choose|i: int|
            0 <= i < prof.never_suggest.len() && parts(
                #[trigger] prof.never_suggest[i],
            ).is_prefix_of(parts(entry.path));
        assert(under(entry.path, prof.never_suggest[i]));
    }
}

proof fn lemma_activity(domains: Seq<(Seq<char>, bool)>, name: Seq<char>, i: int)
    requires
        0 <= i < domains.len(),
        domains[i].0 == name,
        forall|j: int| 0 <= j < i ==> (#[trigger] domains[j]).0 != name,
    ensures
        crate::detect::activity(domains, name) == Some(domains[i].1),
    decreases i,
{
    if i > 0 {
        let rest = domains.drop_first();
        assert forall|j: int| 0 <= j < i - 1 implies (#[trigger] rest[j]).0 != name by {
            assert(rest[j] == domains[j + 1]);
        }
        assert(domains[0].0 != name);
        lemma_activity(rest, name, i - 1);
    }
}

proof fn lemma_no_activity(domains: Seq<(Seq<char>, bool)>, name: Seq<char>)
    requires
        forall|j: int| 0 <= j < domains.len() ==> (#[trigger] domains[j]).0 != name,
    ensures
        crate::detect::activity(domains, name) is None,
    decreases domains.len(),
{
    if domains.len() > 0 {
        let rest = domains.drop_first();
        assert forall|j: int| 0 <= j < rest.len() implies (#[trigger] rest[j]).0 != name by {
            assert(rest[j] == domains[j + 1]);
        }
        assert(domains[0].0 != name);
        lemma_no_activity(rest, name);
    }
}

/// A proposal has the rule's confidence. Where the profile marks the rule's domain as one that the
/// user has left, it is a tenth higher, up to 0.99; where the entry was accessed or modified within
/// the days that the rule allows for, six tenths of that.
pub proof fn confidence_follows_the_profile_and_the_clock(
    rule: RuleView,
    entry: EntryView,
    prof: ProfileView,
    now: i64,
    measured: Option<Metrics>,
)
    ensures
        ({
            let left = rule.domain is Some && exists|i: int|
                0 <= i < prof.domains.len() && (#[trigger] prof.domains[i]) == (
                    rule.domain->0,
                    false,
                ) && forall|j: int|
                    0 <= j < i ==> (#[trigger] prof.domains[j]).0 != rule.domain->0;
            let recent = (rule.exclude_if_recent_access_days is Some && entry.accessed is Some
                && days_between(now, entry.accessed->0) < rule.exclude_if_recent_access_days->0)
                || (rule.exclude_if_recent_modified_days is Some && entry.modified is Some
                && days_between(now, entry.modified->0)
                < rule.exclude_if_recent_modified_days->0);
            let c = proposed(rule, entry, prof, now, measured).confidence;
            &&& !left && !recent ==> c == rule.base_confidence
            &&& !left && recent ==> c == rule.base_confidence * 6 / 10
            &&& left && !recent && rule.base_confidence < 890_000 ==> c == rule.base_confidence
                + 100_000
            &&& left && !recent && rule.base_confidence >= 890_000 ==> c == 990_000
            &&& left && recent && rule.base_confidence < 890_000 ==> c == (rule.base_confidence
                + 100_000) * 6 / 10
            &&& left && recent && rule.base_confidence >= 890_000 ==> c == 594_000
        }),
{
    if rule.domain is Some {
        let name = rule.domain->0;
        let ds = prof.domains;
        if exists|i: int| 0 <= i < ds.len() && (#[trigger] ds[i]).0 == name {
            let n = lemma_first_named(ds, name);
            lemma_activity(ds, name, n);
            if !ds[n].1 {
                assert(ds[n] == (name, false));
            } else {
                assert forall|i: int|
                    0 <= i < ds.len() && (#[trigger] ds[i]) == (name, false) implies exists|j: int|
                    0 <= j < i && (#[trigger] ds[j]).0 == name by {
                    assert(n < i);
                    assert(ds[n].0 == name);
                }
            }
        } else {
            lemma_no_activity(ds, name);
        }
    }
}

proof fn lemma_first_named(domains: Seq<(Seq<char>, bool)>, name: Seq<char>) -> (n: int)
    requires
        exists|i: int| 0 <= i < domains.len() && (#[trigger] domains[i]).0 == name,
    ensures
        0 <= n < domains.len(),
        domains[n].0 == name,
        forall|j: int| 0 <= j < n ==> (#[trigger] domains[j]).0 != name,
    decreases domains.len(),
{
    let i = choose|i: int| 0 <= i < domains.len() && (#[trigger] domains[i]).0 == name;
    if exists|j: int| 0 <= j < i && (#[trigger] domains[j]).0 == name {
        let front = domains.take(i);
        let j = choose|j: int| 0 <= j < i && (#[trigger] domains[j]).0 == name;
        assert(front[j].0 == name);
        let n = lemma_first_named(front, name);
        assert forall|j: int| 0 <= j < n implies (#[trigger] domains[j]).0 != name by {
            assert(front[j] == domains[j]);
        }
        n
    } else {
        i
    }
}

/// A proposal speaks of the entry that was scanned and of the rule that found it.
pub proof fn proposal_speaks_of_its_entry(
    rule: RuleView,
    entry: EntryView,
    prof: ProfileView,
    now: i64,
    measured: Option<Metrics>,
)
    ensures
        ({
            let c = proposed(rule, entry, prof, now, measured);
            &&& c.path == entry.path
            &&& c.size_bytes == entry.size_bytes
            &&& c.modified == entry.modified
            &&& c.accessed == entry.accessed
            &&& c.rule_id == rule.id
            &&& c.reason == rule.reason
            &&& c.domain == rule.domain
            &&& c.consequences == rule.consequences
            &&& rule.id.is_prefix_of(c.id)
            &&& c.consequence_contract is Some <==> rule.consequences is Some
            &&& rule.consequences is Some ==> {
                let k = c.consequence_contract->0;
                k.recovery_class == rule.consequences->0.recovery && k.impact
                    == rule.consequences->0.impact && k.recovery_cost_seconds
                    == rule.consequences->0.rebuild_seconds && k.recovery_cmd
                    == rule.consequences->0.recovery_cmd && k.reference_url == c.reference_url
            }
            &&& rule.reference_url is Some && rule.reference_url->0.len() > 0 ==> c.reference_url
                == rule.reference_url
            &&& c.metrics is Some ==> c.metrics == measured
            &&& c.metrics is None <==> measured is None || (measured->0.staleness_days is None
                && measured->0.metric_confidence == 0)
        }),
{
}

/// The categories have these names, and every other name is unknown.
pub proof fn categories_by_name(s: Seq<char>)
    ensures
        category_named(s) == Category::DevArtifact <==> s == "dev-artifact"@,
        category_named(s) == Category::AppCache <==> s == "app-cache"@,
        category_named(s) == Category::DownloadEntropy <==> s == "download-entropy"@,
        category_named(s) == Category::VmDisk <==> s == "vm-disk"@,
{
    reveal_strlit("dev-artifact");
    reveal_strlit("app-cache");
    reveal_strlit("download-entropy");
    reveal_strlit("vm-disk");
    assert("dev-artifact"@.len() == 12 && "app-cache"@.len() == 9 && "download-entropy"@.len() == 16
        && "vm-disk"@.len() == 7);
}

/// The more it costs to bring something back, the riskier its loss; what is not known to come back
/// counts as a matter for hand work.
pub proof fn risk_grows_with_the_cost_of_recovery(class: Seq<char>)
    ensures
        risk_rank("auto"@) < risk_rank("redownload"@) < risk_rank("rebuild"@) < risk_rank(
            "recreate"@,
        ) < risk_rank("manual"@) < risk_rank("irreversible"@),
        class != "auto"@ && class != "redownload"@ && class != "rebuild"@ && class != "recreate"@
            && class != "irreversible"@ ==> risk_rank(class) == risk_rank("manual"@),
{
    reveal_strlit("auto");
    reveal_strlit("redownload");
    reveal_strlit("rebuild");
    reveal_strlit("recreate");
    reveal_strlit("manual");
    reveal_strlit("irreversible");
    assert("auto"@.len() == 4 && "redownload"@.len() == 10 && "rebuild"@.len() == 7
        && "recreate"@.len() == 8 && "manual"@.len() == 6 && "irreversible"@.len() == 12);
}

/// Every candidate comes of an entry of the scan and of a rule whose pattern accepts its path. The
/// entry was neither accessed nor modified within the rule's days, or it comes back by itself.
pub proof fn candidates_come_of_matching_rules(
    scan: ScanResult,
    rules: Seq<RuleView>,
    prof: Profile,
    home: Seq<char>,
    now: i64,
    measured: Seq<Option<Metrics>>,
    i: int,
)
    requires
        0 <= i < candidates_of(scan, rules, prof, home, now, measured).len(),
    ensures
        ({
            let c = candidates_of(scan, rules, prof, home, now, measured)[i];
            exists|r: int, e: int|
                #![trigger rules[r], scan.entries@[e]]
                0 <= r < rules.len() && 0 <= e < scan.entries@.len() && {
                    let (rule, entry) = (rules[r], scan.entries@[e]@);
                    &&& glob_matches(expanded(rule.path_pattern, home), entry.path)
                    &&& c.path == entry.path
                    &&& c.size_bytes == entry.size_bytes
                    &&& c.rule_id == rule.id
                    &&& c.consequences == rule.consequences
                    &&& (rule.exclude_if_recent_access_days is Some && entry.accessed is Some
                        && days_between(now, entry.accessed->0)
                        < rule.exclude_if_recent_access_days->0) || (
                    rule.exclude_if_recent_modified_days is Some && entry.modified is Some
                        && days_between(now, entry.modified->0)
                        < rule.exclude_if_recent_modified_days->0) ==> rule.consequences is Some
                        && {
                        let class = rule.consequences->0.recovery;
                        class == "auto"@ || class == "redownload"@ || class == "rebuild"@ || class
                            == "recreate"@
                    }
                }
        }),
{
    let entries = entry_views(scan.entries@);
    let hits = hit_table(rules, entries, home);
    let sv = survey_of(scan, prof, now, measured, shield(entries, prof@, home));
    let all = proposals(rules, hits, sv, rules.len() as int);
    let c = settled(all)[i];
    only_proposals_listed(all, i);
    lemma_proposal_origin(rules, hits, sv, rules.len() as int, c);
    let (r, e) = choose|r: int, e: int|
        0 <= r < rules.len() && 0 <= e < sv.entries.len() && #[trigger] selected(
            rules[r],
            row_marks(hits, r),
            sv,
            e,
        ) && c == proposed(
            rules[r],
            sv.entries[e],
            sv.prof,
            sv.now,
            measured_at(sv.measured, e),
        );
    let entry = scan.entries@[e]@;
    assert(sv.entries[e] == entry);
    assert(hits[r][e]);
    assert(glob_matches(expanded(rules[r].path_pattern, home), entry.path));
    proposed_exactly_where_allowed(rules[r], entry, prof@, now, marked(sv.shielded, e));
    proposal_speaks_of_its_entry(rules[r], entry, prof@, now, measured_at(sv.measured, e));
    assert(rules[r] == rules[r] && scan.entries@[e] == scan.entries@[e]);
}

proof fn lemma_row_holds(rule: RuleView, hits: Seq<bool>, sv: Survey, n: int, e: int)
    requires
        0 <= e < n <= sv.entries.len(),
        selected(rule, hits, sv, e),
    ensures
        row(rule, hits, sv, n).contains(
            proposed(rule, sv.entries[e], sv.prof, sv.now, measured_at(sv.measured, e)),
        ),
    decreases n,
{
    let c = proposed(rule, sv.entries[e], sv.prof, sv.now, measured_at(sv.measured, e));
    let line = row(rule, hits, sv, n);
    if e == n - 1 {
        assert(line.last() == c);
        assert(line[line.len() - 1] == c);
    } else {
        lemma_row_holds(rule, hits, sv, n - 1, e);
        let prev = row(rule, hits, sv, n - 1);
        let k = choose|k: int| 0 <= k < prev.len() && prev[k] == c;
        assert(line[k] == c);
    }
}

proof fn lemma_proposals_hold(
    rules: Seq<RuleView>,
    hits: Seq<Seq<bool>>,
    sv: Survey,
    m: int,
    r: int,
    e: int,
)
    requires
        0 <= r < m <= rules.len(),
        0 <= e < sv.entries.len(),
        selected(rules[r], row_marks(hits, r), sv, e),
    ensures
        proposals(rules, hits, sv, m).contains(
            proposed(rules[r], sv.entries[e], sv.prof, sv.now, measured_at(sv.measured, e)),
        ),
    decreases m,
{
    let c = proposed(rules[r], sv.entries[e], sv.prof, sv.now, measured_at(sv.measured, e));
    let all = proposals(rules, hits, sv, m);
    let prev = proposals(rules, hits, sv, m - 1);
    let line = row(rules[m - 1], row_marks(hits, m - 1), sv, sv.entries.len() as int);
    if r == m - 1 {
        lemma_row_holds(rules[r], row_marks(hits, r), sv, sv.entries.len() as int, e);
        let k = choose|k: int| 0 <= k < line.len() && line[k] == c;
        assert(all[prev.len() + k] == c);
    } else {
        lemma_proposals_hold(rules, hits, sv, m - 1, r, e);
        let k = choose|k: int| 0 <= k < prev.len() && prev[k] == c;
        assert(all[k] == c);
    }
}

/// Nothing that a rule may propose is lost: its path is listed or lies inside a listed one.
pub proof fn nothing_proposable_is_lost(
    scan: ScanResult,
    rules: Seq<RuleView>,
    prof: Profile,
    home: Seq<char>,
    now: i64,
    measured: Seq<Option<Metrics>>,
    r: int,
    e: int,
)
    requires
        0 <= r < rules.len(),
        0 <= e < scan.entries@.len(),
        glob_matches(expanded(rules[r].path_pattern, home), scan.entries@[e].path@),
        scan.entries@[e].size_bytes > 0,
        scan.entries@[e].size_bytes >= prof.preferences.min_candidate_bytes,
        forall|i: int|
            0 <= i < prof@.never_touch.len() ==> !glob_matches(
                expanded(#[trigger] prof@.never_touch[i], home),
                scan.entries@[e].path@,
            ),
        forall|i: int|
            0 <= i < prof@.never_suggest.len() ==> !parts(
                #[trigger] prof@.never_suggest[i],
            ).is_prefix_of(parts(scan.entries@[e].path@)),
        rules[r].exclude_if_recent_access_days is None || scan.entries@[e].accessed is None
            || days_between(now, scan.entries@[e].accessed->0)
            >= rules[r].exclude_if_recent_access_days->0,
        rules[r].exclude_if_recent_modified_days is None || scan.entries@[e].modified is None
            || days_between(now, scan.entries@[e].modified->0)
            >= rules[r].exclude_if_recent_modified_days->0,
    ensures
        exists|i: int|
            0 <= i < candidates_of(scan, rules, prof, home, now, measured).len() && under(
                scan.entries@[e].path@,
                (#[trigger] candidates_of(scan, rules, prof, home, now, measured)[i]).path,
            ),
{
    let entries = entry_views(scan.entries@);
    let hits = hit_table(rules, entries, home);
    let sv = survey_of(scan, prof, now, measured, shield(entries, prof@, home));
    let all = proposals(rules, hits, sv, rules.len() as int);
    assert(sv.entries[e] == scan.entries@[e]@);
    assert(row_marks(hits, r)[e] == glob_matches(
        expanded(rules[r].path_pattern, home),
        entries[e].path,
    ));
    assert(sv.shielded[e] == crate::detect::listed(entries[e].path, prof@.never_touch, home));
    proposed_exactly_where_allowed(rules[r], entries[e], prof@, now, marked(sv.shielded, e));
    assert(selected(rules[r], row_marks(hits, r), sv, e));
    lemma_proposals_hold(rules, hits, sv, rules.len() as int, r, e);
    let c = proposed(rules[r], sv.entries[e], sv.prof, sv.now, measured_at(sv.measured, e));
    let k = choose|k: int| 0 <= k < all.len() && all[k] == c;
    every_proposal_covered(all, k);
    let i = choose|i: int|
        0 <= i < settled(all).len() && under(all[k].path, (#[trigger] settled(all)[i]).path);
    assert(candidates_of(scan, rules, prof, home, now, measured)[i] == settled(all)[i]);
}

/// Of two candidates for a path the surer is listed, and of equally sure ones one that is no costlier
/// to bring back.
pub proof fn surer_proposal_stands_for_its_path(all: Seq<CandidateView>, i: int, j: int)
    requires
        0 <= i < all.len(),
        0 <= j < settled(all).len(),
        parts(all[i].path) == parts(settled(all)[j].path),
    ensures
        ({
            let c = settled(all)[j];
            c.confidence > all[i].confidence || (c.confidence == all[i].confidence && risk_rank(
                c.recovery_class(),
            ) <= risk_rank(all[i].recovery_class()))
        }),
{
    crate::detect_laws::best_of_a_path_listed(all, i, j);
}

/// The id of a proposal is its rule's with the hash of its path behind it, so that it stays the same
/// from run to run and differs between rules.
pub proof fn ids_follow_from_rule_and_path(
    rule: RuleView,
    entry: EntryView,
    prof: ProfileView,
    now: i64,
    measured: Option<Metrics>,
    bytes: Seq<u8>,
    b: u8,
)
    ensures
        proposed(rule, entry, prof, now, measured).id == rule.id + "-"@ + hexadecimal(
            fnv(vstd::utf8::encode_utf8(entry.path)) as nat,
        ),
        fnv(Seq::empty()) == 0x811c_9dc5,
        fnv(bytes.push(b)) == ((fnv(bytes) ^ (b as u32)) as nat * 0x0100_0193) % 0x1_0000_0000,
{
    assert(bytes.push(b).drop_last() =~= bytes);
}

/// Where a rule names no page of its own, its candidates point to the rule in the builtin rules.
pub proof fn references_point_to_the_rule(rule_id: Seq<char>, rule_url: Option<Seq<char>>)
    ensures
        rule_url is Some && rule_url->0.len() > 0 ==> url_of(rule_id, rule_url) == rule_url->0,
        rule_url is None || rule_url->0.len() == 0 ==> rule_id.is_suffix_of(
            url_of(rule_id, rule_url),
        ) && "https://github.com/tymrtn/diskspace/blob/v"@.is_prefix_of(url_of(rule_id, rule_url)),
{
    let head = "https://github.com/tymrtn/diskspace/blob/v"@;
    let mid = crate::agent_surface::VERSION@ + "/rules/builtin.yaml#"@;
    let full = head + crate::agent_surface::VERSION@ + "/rules/builtin.yaml#"@ + rule_id;
    assert(full =~= head + (mid + rule_id));
    assert(full.subrange(0, head.len() as int) =~= head);
    assert(full.subrange(full.len() - rule_id.len(), full.len() as int) =~= rule_id);
}

/// A contract says what its consequences say, and where the rule is to be read.
pub proof fn contracts_say_what_was_declared(
    cons: ConsequencesView,
    rule_id: Seq<char>,
    rule_url: Option<Seq<char>>,
)
    ensures
        ({
            let c = contract_of(cons, rule_id, rule_url);
            &&& c.recovery_class == cons.recovery
            &&& c.recovery_cost_seconds == cons.rebuild_seconds
            &&& c.impact == cons.impact
            &&& c.recovery_cmd == cons.recovery_cmd
            &&& c.reference_url == Some(url_of(rule_id, rule_url))
        }),
{
}

} // verus!
