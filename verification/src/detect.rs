//! From a scan and the rules to candidates: proposing, ranking and reporting.

use crate::agent_surface::enrich_candidate;
#[allow(unused_imports)]
use crate::agent_surface::enriched;
use crate::globs::glob_match;
#[allow(unused_imports)]
use crate::globs::glob_matches;
use crate::model::{
    duplicate_consequences, elapsed_days, Candidate, Category, Metrics, Profile, Rule, ScanResult,
    ScannedEntry,
};
#[allow(unused_imports)]
use crate::model::{
    candidate_views, days_between, entry_views, rule_views, CandidateView, EntryView, ProfileView,
    RuleView,
};
use crate::order::{number_key, order_of, Key};
#[allow(unused_imports)]
use crate::order::{arranged, before, indices, key_views, sorted_stably};
use crate::paths::{expand_home, is_same_path, key_of_path, starts_with};
#[allow(unused_imports)]
use crate::paths::{expanded, path_key, same_path, under};
use crate::text::{copy_option, same, to_hexadecimal};
#[allow(unused_imports)]
use crate::text::{hexadecimal, views};
use vstd::prelude::*;

verus! {

// ---------------------------------------------------------------------------
// Recovery classes and categories
// ---------------------------------------------------------------------------
pub open spec fn regenerable(class: Seq<char>) -> bool {
    class == "auto"@ || class == "redownload"@ || class == "rebuild"@ || class == "recreate"@
}

/// Whether what is deleted comes back on its own or on the next run.
pub fn is_regenerable(recovery_class: &str) -> (r: bool)
    ensures
        r == regenerable(recovery_class@),
{
    same(recovery_class, "auto") || same(recovery_class, "redownload") || same(
        recovery_class,
        "rebuild",
    ) || same(recovery_class, "recreate")
}

/// How costly the loss of a class is; higher is worse. A class without a name counts as
/// `manual`.
pub open spec fn risk_rank(class: Seq<char>) -> u8 {
    if class == "auto"@ {
        0
    } else if class == "redownload"@ {
        1
    } else if class == "rebuild"@ {
        2
    } else if class == "recreate"@ {
        3
    } else if class == "manual"@ {
        4
    } else if class == "irreversible"@ {
        5
    } else {
        4
    }
}

pub fn recovery_risk_rank(recovery_class: &str) -> (r: u8)
    ensures
        r == risk_rank(recovery_class@),
{
    if same(recovery_class, "auto") {
        0
    } else if same(recovery_class, "redownload") {
        1
    } else if same(recovery_class, "rebuild") {
        2
    } else if same(recovery_class, "recreate") {
        3
    } else if same(recovery_class, "manual") {
        4
    } else if same(recovery_class, "irreversible") {
        5
    } else {
        4
    }
}

/// The recovery class of a candidate: its contract's, else its rule's, else empty.
pub fn candidate_recovery_class(c: &Candidate) -> (r: &str)
    ensures
        r@ == c@.recovery_class(),
{
    if let Some(contract) = &c.consequence_contract {
        return contract.recovery_class.as_str();
    }
    if let Some(cons) = &c.consequences {
        return cons.recovery.as_str();
    }
    proof {
        reveal_strlit("");
        assert(""@ =~= Seq::<char>::empty());
    }
    ""
}

/// Whether deleting the candidate is costly or permanent.
pub fn is_risky_recovery(c: &Candidate) -> (r: bool)
    ensures
        r == (c@.recovery_class() == "manual"@ || c@.recovery_class() == "irreversible"@),
{
    let class: &str = candidate_recovery_class(c);
    same(class, "manual") || same(class, "irreversible")
}

pub open spec fn category_named(s: Seq<char>) -> Category {
    if s == "dev-artifact"@ {
        Category::DevArtifact
    } else if s == "app-cache"@ {
        Category::AppCache
    } else if s == "download-entropy"@ {
        Category::DownloadEntropy
    } else if s == "vm-disk"@ {
        Category::VmDisk
    } else {
        Category::Unknown
    }
}

pub fn category_from_str(s: &str) -> (r: Category)
    ensures
        r == category_named(s@),
{
    if same(s, "dev-artifact") {
        Category::DevArtifact
    } else if same(s, "app-cache") {
        Category::AppCache
    } else if same(s, "download-entropy") {
        Category::DownloadEntropy
    } else if same(s, "vm-disk") {
        Category::VmDisk
    } else {
        Category::Unknown
    }
}

// ---------------------------------------------------------------------------
// Candidate ids
// ---------------------------------------------------------------------------
/// The 32-bit FNV-1a hash of a byte sequence.
pub open spec fn fnv(bytes: Seq<u8>) -> u32
    decreases bytes.len(),
{
    if bytes.len() == 0 {
        0x811c9dc5u32
    } else {
        let mixed = fnv(bytes.drop_last()) ^ (bytes.last() as u32);
        ((mixed as nat * 0x01000193) % 0x1_0000_0000) as u32
    }
}

/// A short hash of a text, for ids that stay the same from run to run.
pub fn md5_short(s: &str) -> (r: u32)
    ensures
        r == fnv(vstd::utf8::encode_utf8(s@)),
{
    let bytes: &[u8] = s.as_bytes();
    let mut h: u32 = 0x811c9dc5;
    let mut i: usize = 0;
    assert(bytes@.take(0) =~= Seq::<u8>::empty());
    while i < bytes.len()
        invariant
            i <= bytes@.len(),
            h == fnv(bytes@.take(i as int)),
        decreases bytes.len() - i,
    {
        assert(bytes@.take(i + 1).drop_last() =~= bytes@.take(i as int));
        h = h ^ (bytes[i] as u32);
        h = h.wrapping_mul(0x01000193);
        i += 1;
    }
    assert(bytes@.take(i as int) =~= bytes@);
    h
}

pub open spec fn candidate_id(rule_id: Seq<char>, path: Seq<char>) -> Seq<char> {
    rule_id + "-"@ + hexadecimal(fnv(vstd::utf8::encode_utf8(path)) as nat)
}

fn id_of(rule_id: &str, path: &str) -> (r: String)
    ensures
        r@ == candidate_id(rule_id@, path@),
{
    let mut out: String = rule_id.to_owned();
    out.append("-");
    let h: String = to_hexadecimal(md5_short(path));
    out.append(h.as_str());
    out
}

// ---------------------------------------------------------------------------
// One rule on one entry
// ---------------------------------------------------------------------------
/// Whether the profile says of a domain that the user is active in it; nothing where it does
/// not name the domain.
pub open spec fn activity(domains: Seq<(Seq<char>, bool)>, name: Seq<char>) -> Option<bool>
    decreases domains.len(),
{
    if domains.len() == 0 {
        None
    } else if domains[0].0 == name {
        Some(domains[0].1)
    } else {
        activity(domains.drop_first(), name)
    }
}

/// The profile marks the domain as one that the user is not active in.
pub open spec fn inactive(domains: Seq<(Seq<char>, bool)>, domain: Option<Seq<char>>) -> bool {
    domain is Some && activity(domains, domain->0) == Some(false)
}

/// The moment lies within the last `days` days.
pub open spec fn touched(days: Option<u32>, at: Option<i64>, now: i64) -> bool {
    days is Some && at is Some && days_between(now, at->0) < days->0
}

/// A rule's confidence for an entry: a tenth more where its domain is inactive, never above
/// 0.99, and six tenths of that where the entry was touched of late.
pub open spec fn adjusted(base: u32, inactive: bool, recent: bool) -> u32 {
    let raised: nat = if inactive {
        if base + 100_000 < 990_000 {
            (base + 100_000) as nat
        } else {
            990_000
        }
    } else {
        base as nat
    };
    (if recent {
        raised * 6 / 10
    } else {
        raised
    }) as u32
}

/// The path is at or beneath one that the profile never wants suggested.
pub open spec fn suggestion_barred(path: Seq<char>, never_suggest: Seq<Seq<char>>) -> bool {
    exists|i: int| 0 <= i < never_suggest.len() && under(path, #[trigger] never_suggest[i])
}

pub open spec fn declared_class(rule: RuleView) -> Seq<char> {
    match rule.consequences {
        Some(c) => c.recovery,
        None => Seq::<char>::empty(),
    }
}

pub open spec fn recently_touched(rule: RuleView, entry: EntryView, now: i64) -> bool {
    touched(rule.exclude_if_recent_access_days, entry.accessed, now) || touched(
        rule.exclude_if_recent_modified_days,
        entry.modified,
        now,
    )
}

/// The entry may be proposed under the rule. `shielded` says that the profile's never-touch
/// list covers its path.
pub open spec fn proposable(
    rule: RuleView,
    entry: EntryView,
    prof: ProfileView,
    now: i64,
    shielded: bool,
) -> bool {
    &&& entry.size_bytes > 0
    &&& entry.size_bytes >= prof.min_candidate_bytes
    &&& !shielded
    &&& !suggestion_barred(entry.path, prof.never_suggest)
    &&& recently_touched(rule, entry, now) ==> regenerable(declared_class(rule))
}

/// The candidate that a rule makes of an entry.
pub open spec fn proposed(
    rule: RuleView,
    entry: EntryView,
    prof: ProfileView,
    now: i64,
    measured: Option<Metrics>,
) -> CandidateView {
    enriched(
        CandidateView {
            id: candidate_id(rule.id, entry.path),
            rule_id: rule.id,
            path: entry.path,
            size_bytes: entry.size_bytes,
            category: category_named(rule.category),
            confidence: adjusted(
                rule.base_confidence,
                inactive(prof.domains, rule.domain),
                recently_touched(rule, entry, now),
            ),
            reason: rule.reason,
            domain: rule.domain,
            modified: entry.modified,
            accessed: entry.accessed,
            consequences: rule.consequences,
            consequence_contract: None,
            metrics: None,
            reference_url: None,
        },
        rule,
        measured,
    )
}

fn is_inactive(prof: &Profile, domain: &Option<String>) -> (r: bool)
    ensures
        r == inactive(prof@.domains, crate::text::opt_view(*domain)),
{
    let ghost ds = prof@.domains;
    match domain {
        None => false,
        Some(name) => {
            let mut i: usize = 0;
            assert(ds.skip(0) =~= ds);
            while i < prof.domains.len()
                invariant
                    i <= prof.domains@.len(),
                    ds == prof@.domains,
                    crate::text::opt_view(*domain) == Some(name@),
                    activity(ds, name@) == activity(ds.skip(i as int), name@),
                decreases prof.domains.len() - i,
            {
                assert(ds.skip(i as int)[0] == (
                    prof.domains@[i as int].name@,
                    prof.domains@[i as int].active,
                ));
                assert(ds.skip(i as int).drop_first() =~= ds.skip(i + 1));
                if same(prof.domains[i].name.as_str(), name.as_str()) {
                    return !prof.domains[i].active;
                }
                i += 1;
            }
            false
        },
    }
}

fn was_touched(days: Option<u32>, at: Option<i64>, now: i64) -> (r: bool)
    ensures
        r == touched(days, at, now),
{
    match (days, at) {
        (Some(d), Some(t)) => elapsed_days(now, t) < d as i64,
        _ => false,
    }
}

fn is_barred(path: &str, never_suggest: &Vec<String>) -> (r: bool)
    ensures
        r == suggestion_barred(path@, views(never_suggest@)),
{
    let ghost w = views(never_suggest@);
    let mut i: usize = 0;
    while i < never_suggest.len()
        invariant
            i <= never_suggest@.len(),
            w == views(never_suggest@),
            forall|j: int| 0 <= j < i ==> !under(path@, #[trigger] w[j]),
        decreases never_suggest.len() - i,
    {
        assert(w[i as int] == never_suggest@[i as int]@);
        if starts_with(path, never_suggest[i].as_str()) {
            return true;
        }
        i += 1;
    }
    false
}

fn adjust(base: u32, inactive: bool, recent: bool) -> (r: u32)
    ensures
        r == adjusted(base, inactive, recent),
{
    let raised: u64 = if inactive {
        if base as u64 + 100_000 < 990_000 {
            base as u64 + 100_000
        } else {
            990_000
        }
    } else {
        base as u64
    };
    if recent {
        (raised * 6 / 10) as u32
    } else {
        raised as u32
    }
}

/// Applies one rule, whose pattern is known to accept the entry, to the entry.
pub fn propose(
    rule: &Rule,
    entry: &ScannedEntry,
    prof: &Profile,
    now: i64,
    measured: Option<Metrics>,
    shielded: bool,
) -> (r: Option<Candidate>)
    ensures
        match r {
            Some(c) => proposable(rule@, entry@, prof@, now, shielded) && c@ == proposed(
                rule@,
                entry@,
                prof@,
                now,
                measured,
            ),
            None => !proposable(rule@, entry@, prof@, now, shielded),
        },
{
    if entry.size_bytes == 0 || entry.size_bytes < prof.preferences.min_candidate_bytes || shielded {
        return None;
    }
    if is_barred(entry.path.as_str(), &prof.paths.never_suggest) {
        return None;
    }
    let recent: bool = was_touched(rule.exclude_if_recent_access_days, entry.accessed, now)
        || was_touched(rule.exclude_if_recent_modified_days, entry.modified, now);
    let regenerates: bool = match &rule.consequences {
        Some(c) => is_regenerable(c.recovery.as_str()),
        None => {
            proof {
                reveal_strlit("auto");
                reveal_strlit("redownload");
                reveal_strlit("rebuild");
                reveal_strlit("recreate");
            }
            false
        },
    };
    if recent && !regenerates {
        return None;
    }
    let mut c: Candidate = Candidate {
        id: id_of(rule.id.as_str(), entry.path.as_str()),
        rule_id: rule.id.as_str().to_owned(),
        path: entry.path.as_str().to_owned(),
        size_bytes: entry.size_bytes,
        category: category_from_str(rule.category.as_str()),
        confidence: adjust(rule.base_confidence, is_inactive(prof, &rule.domain), recent),
        reason: rule.reason.as_str().to_owned(),
        domain: copy_option(&rule.domain),
        modified: entry.modified,
        accessed: entry.accessed,
        consequences: duplicate_consequences(&rule.consequences),
        consequence_contract: None,
        metrics: None,
        reference_url: None,
    };
    enrich_candidate(&mut c, rule, measured);
    Some(c)
}

// ---------------------------------------------------------------------------
// All rules on all entries
// ---------------------------------------------------------------------------
/// What the rules are applied to: the entries with what is known of each, and the profile.
pub ghost struct Survey {
    pub entries: Seq<EntryView>,
    pub measured: Seq<Option<Metrics>>,
    pub shielded: Seq<bool>,
    pub prof: ProfileView,
    pub now: i64,
}

/// The mark at a position; false past the end.
pub open spec fn marked(marks: Seq<bool>, i: int) -> bool {
    0 <= i < marks.len() && marks[i]
}

pub open spec fn measured_at(measured: Seq<Option<Metrics>>, i: int) -> Option<Metrics> {
    if 0 <= i < measured.len() {
        measured[i]
    } else {
        None
    }
}

/// The rule's pattern accepts the entry, and the entry may be proposed under it.
pub open spec fn selected(rule: RuleView, hits: Seq<bool>, sv: Survey, e: int) -> bool {
    marked(hits, e) && proposable(rule, sv.entries[e], sv.prof, sv.now, marked(sv.shielded, e))
}

/// The candidates that one rule makes of the first `n` entries.
pub open spec fn row(rule: RuleView, hits: Seq<bool>, sv: Survey, n: int) -> Seq<CandidateView>
    decreases n,
{
    if n <= 0 {
        Seq::empty()
    } else if selected(rule, hits, sv, n - 1) {
        row(rule, hits, sv, n - 1).push(
            proposed(
                rule,
                sv.entries[n - 1],
                sv.prof,
                sv.now,
                measured_at(sv.measured, n - 1),
            ),
        )
    } else {
        row(rule, hits, sv, n - 1)
    }
}

pub open spec fn row_marks(hits: Seq<Seq<bool>>, r: int) -> Seq<bool> {
    if 0 <= r < hits.len() {
        hits[r]
    } else {
        Seq::empty()
    }
}

/// The candidates that the first `m` rules make, rule after rule.
pub open spec fn proposals(
    rules: Seq<RuleView>,
    hits: Seq<Seq<bool>>,
    sv: Survey,
    m: int,
) -> Seq<CandidateView>
    decreases m,
{
    if m <= 0 {
        Seq::empty()
    } else {
        proposals(rules, hits, sv, m - 1) + row(
            rules[m - 1],
            row_marks(hits, m - 1),
            sv,
            sv.entries.len() as int,
        )
    }
}

/// Candidates by path, the best of a path first: the most confident, then the least risky.
pub open spec fn by_path(c: CandidateView) -> Seq<Seq<int>> {
    path_key(c.path) + path_rank(c)
}

pub open spec fn path_rank(c: CandidateView) -> Seq<Seq<int>> {
    seq![
        Seq::<int>::empty(),
        seq![0xffff_ffff - c.confidence],
        seq![risk_rank(c.recovery_class()) as int],
    ]
}

pub open spec fn path_keys(v: Seq<CandidateView>) -> Seq<Seq<Seq<int>>> {
    v.map_values(|c: CandidateView| by_path(c))
}

/// Of neighbours with one path, the first.
pub open spec fn dedup(v: Seq<CandidateView>) -> Seq<CandidateView>
    decreases v.len(),
{
    if v.len() <= 1 {
        v
    } else {
        let kept = dedup(v.drop_last());
        if same_path(kept.last().path, v.last().path) {
            kept
        } else {
            kept.push(v.last())
        }
    }
}

/// Another candidate's path holds this one.
pub open spec fn nested(c: CandidateView, all: Seq<CandidateView>) -> bool {
    exists|i: int|
        0 <= i < all.len() && !same_path(c.path, (#[trigger] all[i]).path) && under(
            c.path,
            all[i].path,
        )
}

pub open spec fn outermost(v: Seq<CandidateView>) -> Seq<CandidateView> {
    v.filter(|c: CandidateView| !nested(c, v))
}

/// The proposals by path, one for each path, without those inside another.
pub open spec fn settled(all: Seq<CandidateView>) -> Seq<CandidateView> {
    outermost(dedup(sorted_stably(all, path_keys(all))))
}

fn by_path_key(c: &Candidate) -> (r: Key)
    ensures
        r@ == by_path(c@),
{
    let mut k: Key = key_of_path(c.path.as_str());
    let ghost before = k@;
    k.parts.push(Vec::new());
    k.parts.push(number_key((0xffff_ffffu32 - c.confidence) as u64));
    k.parts.push(number_key(recovery_risk_rank(candidate_recovery_class(c)) as u64));
    proof {
        let n = before.len() as int;
        assert(k@.len() == n + 3);
        assert(k@[n] =~= Seq::<int>::empty());
        assert(k@[n + 1] =~= seq![0xffff_ffff - c.confidence]);
        assert(k@[n + 2] =~= seq![risk_rank(c@.recovery_class()) as int]);
        assert forall|i: int| 0 <= i < n implies k@[i] == before[i] by {}
        assert(k@ =~= by_path(c@));
    }
    k
}

/// The candidates at the given positions, in that order.
pub fn pick(v: &Vec<Candidate>, order: &Vec<usize>) -> (r: Vec<Candidate>)
    requires
        forall|i: int| 0 <= i < order@.len() ==> #[trigger] order@[i] < v@.len(),
    ensures
        candidate_views(r@) == arranged(candidate_views(v@), indices(order@)),
{
    let mut out: Vec<Candidate> = Vec::new();
    let mut i: usize = 0;
    while i < order.len()
        invariant
            i <= order@.len(),
            forall|j: int| 0 <= j < order@.len() ==> #[trigger] order@[j] < v@.len(),
            out@.len() == i,
            forall|j: int| 0 <= j < i ==> (#[trigger] out@[j])@ == v@[order@[j] as int]@,
        decreases order.len() - i,
    {
        out.push(v[order[i]].duplicate());
        i += 1;
    }
    assert(candidate_views(out@) =~= arranged(candidate_views(v@), indices(order@)));
    out
}

fn sort_by_path(v: &Vec<Candidate>) -> (r: Vec<Candidate>)
    ensures
        candidate_views(r@) == sorted_stably(
            candidate_views(v@),
            path_keys(candidate_views(v@)),
        ),
{
    let mut keys: Vec<Key> = Vec::new();
    let mut i: usize = 0;
    while i < v.len()
        invariant
            i <= v@.len(),
            keys@.len() == i,
            forall|j: int| 0 <= j < i ==> (#[trigger] keys@[j])@ == by_path(v@[j]@),
        decreases v.len() - i,
    {
        keys.push(by_path_key(&v[i]));
        i += 1;
    }
    assert(key_views(keys@) =~= path_keys(candidate_views(v@)));
    let order: Vec<usize> = order_of(&keys);
    pick(v, &order)
}

fn drop_duplicates(v: &Vec<Candidate>) -> (r: Vec<Candidate>)
    ensures
        candidate_views(r@) == dedup(candidate_views(v@)),
{
    let ghost w = candidate_views(v@);
    let mut out: Vec<Candidate> = Vec::new();
    let mut i: usize = 0;
    assert(w.take(0) =~= Seq::<CandidateView>::empty());
    assert(candidate_views(out@) =~= dedup(w.take(0)));
    while i < v.len()
        invariant
            i <= v@.len(),
            w == candidate_views(v@),
            candidate_views(out@) == dedup(w.take(i as int)),
            i > 0 ==> out@.len() > 0,
        decreases v.len() - i,
    {
        assert(w.take(i + 1).drop_last() =~= w.take(i as int));
        assert(w.take(i + 1).last() == v@[i as int]@);
        let ghost before = candidate_views(out@);
        if i == 0 {
            out.push(v[0].duplicate());
            assert(candidate_views(out@) =~= w.take(1));
        } else {
            assert(before.last() == out@.last()@);
            if !is_same_path(out[out.len() - 1].path.as_str(), v[i].path.as_str()) {
                out.push(v[i].duplicate());
                assert(candidate_views(out@) =~= before.push(v@[i as int]@));
            }
        }
        i += 1;
    }
    assert(w.take(i as int) =~= w);
    out
}

fn is_nested(c: &Candidate, all: &Vec<Candidate>) -> (r: bool)
    ensures
        r == nested(c@, candidate_views(all@)),
{
    let ghost w = candidate_views(all@);
    let mut i: usize = 0;
    while i < all.len()
        invariant
            i <= all@.len(),
            w == candidate_views(all@),
            forall|j: int|
                0 <= j < i ==> !(!same_path(c@.path, (#[trigger] w[j]).path) && under(
                    c@.path,
                    w[j].path,
                )),
        decreases all.len() - i,
    {
        assert(w[i as int] == all@[i as int]@);
        if !is_same_path(c.path.as_str(), all[i].path.as_str()) && starts_with(
            c.path.as_str(),
            all[i].path.as_str(),
        ) {
            return true;
        }
        i += 1;
    }
    false
}

fn keep_outermost(v: &Vec<Candidate>) -> (r: Vec<Candidate>)
    ensures
        candidate_views(r@) == outermost(candidate_views(v@)),
{
    let ghost w = candidate_views(v@);
    let ghost keep = |c: CandidateView| !nested(c, w);
    let mut out: Vec<Candidate> = Vec::new();
    let mut i: usize = 0;
    proof {
        reveal(Seq::filter);
        assert(candidate_views(out@) =~= w.take(0).filter(keep));
    }
    while i < v.len()
        invariant
            i <= v@.len(),
            w == candidate_views(v@),
            keep == (|c: CandidateView| !nested(c, w)),
            candidate_views(out@) == w.take(i as int).filter(keep),
        decreases v.len() - i,
    {
        proof {
            reveal(Seq::filter);
            assert(w.take(i + 1).drop_last() =~= w.take(i as int));
            assert(w[i as int] == v@[i as int]@);
        }
        let ghost before = candidate_views(out@);
        if !is_nested(&v[i], v) {
            out.push(v[i].duplicate());
            assert(candidate_views(out@) =~= before.push(v@[i as int]@));
        }
        i += 1;
    }
    assert(w.take(i as int) =~= w);
    out
}

pub open spec fn survey_of(
    scan: ScanResult,
    prof: Profile,
    now: i64,
    measured: Seq<Option<Metrics>>,
    shielded: Seq<bool>,
) -> Survey {
    Survey { entries: entry_views(scan.entries@), measured, shielded, prof: prof@, now }
}

pub open spec fn tables(v: Seq<Vec<bool>>) -> Seq<Seq<bool>> {
    v.map_values(|r: Vec<bool>| r@)
}

/// Applies every rule to every entry that its pattern accepts. `hits[r][e]` says that the
/// pattern of rule `r` accepts entry `e`, `shielded[e]` that the never-touch list covers it,
/// and `measured[e]` is what was measured of it.
pub fn collect_candidates(
    scan: &ScanResult,
    rules: &Vec<Rule>,
    prof: &Profile,
    now: i64,
    measured: &Vec<Option<Metrics>>,
    hits: &Vec<Vec<bool>>,
    shielded: &Vec<bool>,
) -> (r: Vec<Candidate>)
    ensures
        candidate_views(r@) == settled(
            proposals(
                rule_views(rules@),
                tables(hits@),
                survey_of(*scan, *prof, now, measured@, shielded@),
                rules@.len() as int,
            ),
        ),
{
    let ghost sv = survey_of(*scan, *prof, now, measured@, shielded@);
    let ghost rv = rule_views(rules@);
    let ghost hv = tables(hits@);
    let mut all: Vec<Candidate> = Vec::new();
    let mut i: usize = 0;
    assert(candidate_views(all@) =~= Seq::<CandidateView>::empty());
    while i < rules.len()
        invariant
            i <= rules@.len(),
            sv == survey_of(*scan, *prof, now, measured@, shielded@),
            rv == rule_views(rules@),
            hv == tables(hits@),
            candidate_views(all@) == proposals(rv, hv, sv, i as int),
        decreases rules.len() - i,
    {
        let ghost done = candidate_views(all@);
        let ghost marks = row_marks(hv, i as int);
        let mut e: usize = 0;
        assert(done + row(rv[i as int], marks, sv, 0) =~= done);
        while e < scan.entries.len()
            invariant
                i < rules@.len(),
                e <= scan.entries@.len(),
                sv == survey_of(*scan, *prof, now, measured@, shielded@),
                rv == rule_views(rules@),
                hv == tables(hits@),
                marks == row_marks(hv, i as int),
                candidate_views(all@) == done + row(rv[i as int], marks, sv, e as int),
            decreases scan.entries.len() - e,
        {
            assert(sv.entries[e as int] == scan.entries@[e as int]@);
            assert(rv[i as int] == rules@[i as int]@);
            assert(i < hits@.len() ==> hv[i as int] == hits@[i as int]@);
            let hit: bool = i < hits.len() && e < hits[i].len() && hits[i][e];
            assert(hit == marked(marks, e as int));
            let ghost before = candidate_views(all@);
            if hit {
                let shield: bool = e < shielded.len() && shielded[e];
                let m: Option<Metrics> = if e < measured.len() {
                    measured[e]
                } else {
                    None
                };
                let found: Option<Candidate> = propose(
                    &rules[i],
                    &scan.entries[e],
                    prof,
                    now,
                    m,
                    shield,
                );
                if let Some(c) = found {
                    let ghost cv = c@;
                    all.push(c);
                    assert(candidate_views(all@) =~= before.push(cv));
                    assert(before.push(cv) =~= done + row(
                        rv[i as int],
                        marks,
                        sv,
                        e as int,
                    ).push(cv));
                }
            }
            e += 1;
        }
        i += 1;
    }
    let sorted: Vec<Candidate> = sort_by_path(&all);
    let single: Vec<Candidate> = drop_duplicates(&sorted);
    keep_outermost(&single)
}

// ---------------------------------------------------------------------------
// The patterns
// ---------------------------------------------------------------------------
/// A pattern of the list, with the home directory filled in, accepts the path.
pub open spec fn listed(path: Seq<char>, patterns: Seq<Seq<char>>, home: Seq<char>) -> bool {
    exists|i: int|
        0 <= i < patterns.len() && glob_matches(expanded(#[trigger] patterns[i], home), path)
}

/// Whether a pattern of the never-touch list covers the path.
pub fn is_never_touch(path: &str, patterns: &Vec<String>, home: &str) -> (r: bool)
    ensures
        r == listed(path@, views(patterns@), home@),
{
    let ghost w = views(patterns@);
    let mut i: usize = 0;
    while i < patterns.len()
        invariant
            i <= patterns@.len(),
            w == views(patterns@),
            forall|j: int| 0 <= j < i ==> !glob_matches(expanded(#[trigger] w[j], home@), path@),
        decreases patterns.len() - i,
    {
        assert(w[i as int] == patterns@[i as int]@);
        let pattern: String = expand_home(patterns[i].as_str(), home);
        if glob_match(pattern.as_str(), path) {
            return true;
        }
        i += 1;
    }
    false
}

/// For every rule, the entries that its pattern accepts.
pub open spec fn hit_table(rules: Seq<RuleView>, entries: Seq<EntryView>, home: Seq<char>) -> Seq<
    Seq<bool>,
> {
    rules.map_values(
        |r: RuleView|
            entries.map_values(
                |e: EntryView| glob_matches(expanded(r.path_pattern, home), e.path),
            ),
    )
}

/// The entries that the never-touch list covers.
pub open spec fn shield(entries: Seq<EntryView>, prof: ProfileView, home: Seq<char>) -> Seq<bool> {
    entries.map_values(|e: EntryView| listed(e.path, prof.never_touch, home))
}

/// The candidates that a scan, the rules and the profile give.
pub open spec fn candidates_of(
    scan: ScanResult,
    rules: Seq<RuleView>,
    prof: Profile,
    home: Seq<char>,
    now: i64,
    measured: Seq<Option<Metrics>>,
) -> Seq<CandidateView> {
    let entries = entry_views(scan.entries@);
    settled(
        proposals(
            rules,
            hit_table(rules, entries, home),
            survey_of(scan, prof, now, measured, shield(entries, prof@, home)),
            rules.len() as int,
        ),
    )
}

/// The candidates of a scan. `measured[e]` is what the measurement log says of entry `e`.
pub fn build_candidates_pub(
    scan: &ScanResult,
    rules: &Vec<Rule>,
    prof: &Profile,
    home: &str,
    now: i64,
    measured: &Vec<Option<Metrics>>,
) -> (r: Vec<Candidate>)
    ensures
        candidate_views(r@) == candidates_of(
            *scan,
            rule_views(rules@),
            *prof,
            home@,
            now,
            measured@,
        ),
{
    build_candidates(scan, rules, prof, home, now, measured)
}

fn build_candidates(
    scan: &ScanResult,
    rules: &Vec<Rule>,
    prof: &Profile,
    home: &str,
    now: i64,
    measured: &Vec<Option<Metrics>>,
) -> (r: Vec<Candidate>)
    ensures
        candidate_views(r@) == candidates_of(
            *scan,
            rule_views(rules@),
            *prof,
            home@,
            now,
            measured@,
        ),
{
    let ghost entries = entry_views(scan.entries@);
    let mut hits: Vec<Vec<bool>> = Vec::new();
    let mut i: usize = 0;
    while i < rules.len()
        invariant
            i <= rules@.len(),
            entries == entry_views(scan.entries@),
            hits@.len() == i,
            forall|j: int|
                0 <= j < i ==> (#[trigger] hits@[j])@ == entries.map_values(
                    |e: EntryView|
                        glob_matches(expanded(rules@[j].path_pattern@, home@), e.path),
                ),
        decreases rules.len() - i,
    {
        let pattern: String = expand_home(rules[i].path_pattern.as_str(), home);
        let mut line: Vec<bool> = Vec::new();
        let mut e: usize = 0;
        while e < scan.entries.len()
            invariant
                e <= scan.entries@.len(),
                line@.len() == e,
                forall|j: int|
                    0 <= j < e ==> #[trigger] line@[j] == glob_matches(
                        pattern@,
                        scan.entries@[j].path@,
                    ),
            decreases scan.entries.len() - e,
        {
            line.push(glob_match(pattern.as_str(), scan.entries[e].path.as_str()));
            e += 1;
        }
        assert(line@ =~= entries.map_values(
            |e: EntryView| glob_matches(expanded(rules@[i as int].path_pattern@, home@), e.path),
        ));
        hits.push(line);
        i += 1;
    }
    assert(tables(hits@) =~= hit_table(rule_views(rules@), entries, home@)) by {
        assert forall|j: int| 0 <= j < rules@.len() implies #[trigger] tables(hits@)[j]
            == hit_table(rule_views(rules@), entries, home@)[j] by {
            assert(tables(hits@)[j] == hits@[j]@);
            assert(tables(hits@)[j] =~= hit_table(rule_views(rules@), entries, home@)[j]);
        }
    }
    let mut shielded: Vec<bool> = Vec::new();
    let mut e: usize = 0;
    while e < scan.entries.len()
        invariant
            e <= scan.entries@.len(),
            shielded@.len() == e,
            forall|j: int|
                0 <= j < e ==> #[trigger] shielded@[j] == listed(
                    scan.entries@[j].path@,
                    prof@.never_touch,
                    home@,
                ),
        decreases scan.entries.len() - e,
    {
        shielded.push(
            is_never_touch(scan.entries[e].path.as_str(), &prof.paths.never_touch, home),
        );
        e += 1;
    }
    assert(shielded@ =~= shield(entries, prof@, home@));
    collect_candidates(scan, rules, prof, now, measured, &hits, &shielded)
}

} // verus!
