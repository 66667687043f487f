//! The data that the commands share: rules, scanned entries, candidates, checks and the profile.
//!
//! Confidences are integers in millionths, so that 0.85 is `850_000`. Points in time are
//! nanoseconds since the Unix epoch.

use crate::text::copy_option;
#[allow(unused_imports)]
use crate::text::{opt_view, views};
use vstd::prelude::*;

verus! {

/// A confidence of one.
pub const FULL_CONFIDENCE: u32 = 1_000_000;

/// The confidence from which a permanent delete needs no further consent.
pub const IMMEDIATE_THRESHOLD: u32 = 850_000;

// ---------------------------------------------------------------------------
// Categories
// ---------------------------------------------------------------------------
#[derive(Debug, Clone, Copy, PartialEq, Eq, Structural)]
pub enum Category {
    DevArtifact,
    AppCache,
    DownloadEntropy,
    VmDisk,
    Unknown,
}

// ---------------------------------------------------------------------------
// Consequences
// ---------------------------------------------------------------------------
/// What deleting a match of a rule means, as the rule declares it.
#[derive(Debug)]
pub struct Consequences {
    pub recovery: String,
    pub rebuild_seconds: Option<u32>,
    pub impact: String,
    pub recovery_cmd: Option<String>,
}

pub ghost struct ConsequencesView {
    pub recovery: Seq<char>,
    pub rebuild_seconds: Option<u32>,
    pub impact: Seq<char>,
    pub recovery_cmd: Option<Seq<char>>,
}

impl View for Consequences {
    type V = ConsequencesView;

    open spec fn view(&self) -> ConsequencesView {
        ConsequencesView {
            recovery: self.recovery@,
            rebuild_seconds: self.rebuild_seconds,
            impact: self.impact@,
            recovery_cmd: opt_view(self.recovery_cmd),
        }
    }
}

pub open spec fn opt_consequences(o: Option<Consequences>) -> Option<ConsequencesView> {
    match o {
        Some(c) => Some(c@),
        None => None,
    }
}

impl Consequences {
    pub fn duplicate(&self) -> (r: Consequences)
        ensures
            r@ == self@,
    {
        Consequences {
            recovery: self.recovery.as_str().to_owned(),
            rebuild_seconds: self.rebuild_seconds,
            impact: self.impact.as_str().to_owned(),
            recovery_cmd: copy_option(&self.recovery_cmd),
        }
    }
}

pub fn duplicate_consequences(o: &Option<Consequences>) -> (r: Option<Consequences>)
    ensures
        opt_consequences(r) == opt_consequences(*o),
{
    match o {
        Some(c) => Some(c.duplicate()),
        None => None,
    }
}

/// The consequences of a candidate as agents read them.
#[derive(Debug)]
pub struct ConsequenceContract {
    pub recovery_class: String,
    pub recovery_cost_seconds: Option<u32>,
    pub impact: String,
    pub recovery_cmd: Option<String>,
    pub reference_url: Option<String>,
}

pub ghost struct ContractView {
    pub recovery_class: Seq<char>,
    pub recovery_cost_seconds: Option<u32>,
    pub impact: Seq<char>,
    pub recovery_cmd: Option<Seq<char>>,
    pub reference_url: Option<Seq<char>>,
}

impl View for ConsequenceContract {
    type V = ContractView;

    open spec fn view(&self) -> ContractView {
        ContractView {
            recovery_class: self.recovery_class@,
            recovery_cost_seconds: self.recovery_cost_seconds,
            impact: self.impact@,
            recovery_cmd: opt_view(self.recovery_cmd),
            reference_url: opt_view(self.reference_url),
        }
    }
}

pub open spec fn opt_contract(o: Option<ConsequenceContract>) -> Option<ContractView> {
    match o {
        Some(c) => Some(c@),
        None => None,
    }
}

impl ConsequenceContract {
    pub fn duplicate(&self) -> (r: ConsequenceContract)
        ensures
            r@ == self@,
    {
        ConsequenceContract {
            recovery_class: self.recovery_class.as_str().to_owned(),
            recovery_cost_seconds: self.recovery_cost_seconds,
            impact: self.impact.as_str().to_owned(),
            recovery_cmd: copy_option(&self.recovery_cmd),
            reference_url: copy_option(&self.reference_url),
        }
    }
}

pub fn duplicate_contract(o: &Option<ConsequenceContract>) -> (r: Option<ConsequenceContract>)
    ensures
        opt_contract(r) == opt_contract(*o),
{
    match o {
        Some(c) => Some(c.duplicate()),
        None => None,
    }
}

// ---------------------------------------------------------------------------
// Measurements
// ---------------------------------------------------------------------------
/// What the measurement log says of a path. Advice only.
#[derive(Debug, Clone, Copy, PartialEq, Eq, Structural)]
pub struct Metrics {
    pub staleness_days: Option<i64>,
    pub metric_confidence: u32,
}

impl Metrics {
    /// Nothing was measured: no field is set and no sample contributes.
    pub open spec fn silent(self) -> bool {
        self.staleness_days is None && self.metric_confidence == 0
    }

    /// Whether there is nothing measured behind this value.
    pub fn has_no_signal(&self) -> (r: bool)
        ensures
            r == self.silent(),
    {
        self.staleness_days.is_none() && self.metric_confidence == 0
    }
}

impl Default for Metrics {
    fn default() -> (r: Metrics)
        ensures
            r.silent(),
    {
        Metrics { staleness_days: None, metric_confidence: 0 }
    }
}

// ---------------------------------------------------------------------------
// Rules
// ---------------------------------------------------------------------------
/// One entry of the rule library.
#[derive(Debug)]
pub struct Rule {
    pub id: String,
    pub category: String,
    pub path_pattern: String,
    pub domain: Option<String>,
    pub base_confidence: u32,
    pub reason: String,
    pub exclude_if_recent_access_days: Option<u32>,
    pub exclude_if_recent_modified_days: Option<u32>,
    pub consequences: Option<Consequences>,
    pub reference_url: Option<String>,
}

pub ghost struct RuleView {
    pub id: Seq<char>,
    pub category: Seq<char>,
    pub path_pattern: Seq<char>,
    pub domain: Option<Seq<char>>,
    pub base_confidence: u32,
    pub reason: Seq<char>,
    pub exclude_if_recent_access_days: Option<u32>,
    pub exclude_if_recent_modified_days: Option<u32>,
    pub consequences: Option<ConsequencesView>,
    pub reference_url: Option<Seq<char>>,
}

impl View for Rule {
    type V = RuleView;

    open spec fn view(&self) -> RuleView {
        RuleView {
            id: self.id@,
            category: self.category@,
            path_pattern: self.path_pattern@,
            domain: opt_view(self.domain),
            base_confidence: self.base_confidence,
            reason: self.reason@,
            exclude_if_recent_access_days: self.exclude_if_recent_access_days,
            exclude_if_recent_modified_days: self.exclude_if_recent_modified_days,
            consequences: opt_consequences(self.consequences),
            reference_url: opt_view(self.reference_url),
        }
    }
}

pub open spec fn rule_views(v: Seq<Rule>) -> Seq<RuleView> {
    v.map_values(|r: Rule| r@)
}

// ---------------------------------------------------------------------------
// The scan
// ---------------------------------------------------------------------------
/// A path that the scan matched to a rule, with its bytes on disk.
#[derive(Debug)]
pub struct ScannedEntry {
    pub path: String,
    pub size_bytes: u64,
    pub category: Category,
    pub modified: Option<i64>,
    pub accessed: Option<i64>,
}

pub ghost struct EntryView {
    pub path: Seq<char>,
    pub size_bytes: u64,
    pub category: Category,
    pub modified: Option<i64>,
    pub accessed: Option<i64>,
}

impl View for ScannedEntry {
    type V = EntryView;

    open spec fn view(&self) -> EntryView {
        EntryView {
            path: self.path@,
            size_bytes: self.size_bytes,
            category: self.category,
            modified: self.modified,
            accessed: self.accessed,
        }
    }
}

pub open spec fn entry_views(v: Seq<ScannedEntry>) -> Seq<EntryView> {
    v.map_values(|e: ScannedEntry| e@)
}

/// A directory with the bytes of everything beneath it.
#[derive(Debug)]
pub struct DirTotal {
    pub path: String,
    pub total_bytes: u64,
}

/// A finished scan.
#[derive(Debug)]
pub struct ScanResult {
    pub scanned_at: i64,
    pub entries: Vec<ScannedEntry>,
    pub largest_dirs: Vec<DirTotal>,
}

// ---------------------------------------------------------------------------
// Candidates
// ---------------------------------------------------------------------------
/// A path that a rule proposes for removal.
#[derive(Debug)]
pub struct Candidate {
    pub id: String,
    pub rule_id: String,
    pub path: String,
    pub size_bytes: u64,
    pub category: Category,
    pub confidence: u32,
    pub reason: String,
    pub domain: Option<String>,
    pub modified: Option<i64>,
    pub accessed: Option<i64>,
    pub consequences: Option<Consequences>,
    pub consequence_contract: Option<ConsequenceContract>,
    pub metrics: Option<Metrics>,
    pub reference_url: Option<String>,
}

pub ghost struct CandidateView {
    pub id: Seq<char>,
    pub rule_id: Seq<char>,
    pub path: Seq<char>,
    pub size_bytes: u64,
    pub category: Category,
    pub confidence: u32,
    pub reason: Seq<char>,
    pub domain: Option<Seq<char>>,
    pub modified: Option<i64>,
    pub accessed: Option<i64>,
    pub consequences: Option<ConsequencesView>,
    pub consequence_contract: Option<ContractView>,
    pub metrics: Option<Metrics>,
    pub reference_url: Option<Seq<char>>,
}

impl View for Candidate {
    type V = CandidateView;

    open spec fn view(&self) -> CandidateView {
        CandidateView {
            id: self.id@,
            rule_id: self.rule_id@,
            path: self.path@,
            size_bytes: self.size_bytes,
            category: self.category,
            confidence: self.confidence,
            reason: self.reason@,
            domain: opt_view(self.domain),
            modified: self.modified,
            accessed: self.accessed,
            consequences: opt_consequences(self.consequences),
            consequence_contract: opt_contract(self.consequence_contract),
            metrics: self.metrics,
            reference_url: opt_view(self.reference_url),
        }
    }
}

pub open spec fn candidate_views(v: Seq<Candidate>) -> Seq<CandidateView> {
    v.map_values(|c: Candidate| c@)
}

impl CandidateView {
    /// Yield times confidence: the number that ranks candidates.
    pub open spec fn score(self) -> nat {
        self.size_bytes as nat * self.confidence as nat
    }

    /// The recovery class: the contract's, else the rule's own, else empty.
    pub open spec fn recovery_class(self) -> Seq<char> {
        match self.consequence_contract {
            Some(k) => k.recovery_class,
            None => match self.consequences {
                Some(c) => c.recovery,
                None => Seq::<char>::empty(),
            },
        }
    }
}

impl Candidate {
    /// Yield times confidence, in byte-millionths.
    pub fn score(&self) -> (r: u128)
        ensures
            r == self@.score(),
    {
        let size: u128 = self.size_bytes as u128;
        let confidence: u128 = self.confidence as u128;
        assert(size * confidence <= 0xffff_ffff_ffff_ffff * 0xffff_ffff) by (nonlinear_arith)
            requires
                size <= 0xffff_ffff_ffff_ffff,
                confidence <= 0xffff_ffff,
        ;
        size * confidence
    }

    pub fn duplicate(&self) -> (r: Candidate)
        ensures
            r@ == self@,
    {
        Candidate {
            id: self.id.as_str().to_owned(),
            rule_id: self.rule_id.as_str().to_owned(),
            path: self.path.as_str().to_owned(),
            size_bytes: self.size_bytes,
            category: self.category,
            confidence: self.confidence,
            reason: self.reason.as_str().to_owned(),
            domain: copy_option(&self.domain),
            modified: self.modified,
            accessed: self.accessed,
            consequences: duplicate_consequences(&self.consequences),
            consequence_contract: duplicate_contract(&self.consequence_contract),
            metrics: self.metrics,
            reference_url: copy_option(&self.reference_url),
        }
    }
}

/// The sum of the sizes of a list of candidates.
pub open spec fn total_size(v: Seq<CandidateView>) -> nat
    decreases v.len(),
{
    if v.len() == 0 {
        0
    } else {
        total_size(v.drop_last()) + v.last().size_bytes as nat
    }
}

// ---------------------------------------------------------------------------
// Checks
// ---------------------------------------------------------------------------
/// One validator's verdict on a path.
#[derive(Debug)]
pub struct CheckStep {
    pub name: String,
    pub passed: bool,
    pub note: String,
}

pub ghost struct StepView {
    pub name: Seq<char>,
    pub passed: bool,
    pub note: Seq<char>,
}

impl View for CheckStep {
    type V = StepView;

    open spec fn view(&self) -> StepView {
        StepView { name: self.name@, passed: self.passed, note: self.note@ }
    }
}

pub open spec fn step_views(v: Seq<CheckStep>) -> Seq<StepView> {
    v.map_values(|s: CheckStep| s@)
}

impl CheckStep {
    pub fn new(name: &str, passed: bool, note: String) -> (r: CheckStep)
        ensures
            r@ == (StepView { name: name@, passed: passed, note: note@ }),
    {
        CheckStep { name: name.to_owned(), passed, note }
    }

    pub fn duplicate(&self) -> (r: CheckStep)
        ensures
            r@ == self@,
    {
        CheckStep {
            name: self.name.as_str().to_owned(),
            passed: self.passed,
            note: self.note.as_str().to_owned(),
        }
    }
}

/// The verdict of all validators on a path.
#[derive(Debug)]
pub struct CheckResult {
    pub candidate_id: String,
    pub safe: bool,
    pub confidence: u32,
    pub steps: Vec<CheckStep>,
    pub consequences: Option<Consequences>,
    pub consequence_contract: Option<ConsequenceContract>,
    pub metrics: Option<Metrics>,
    pub reference_url: Option<String>,
}

pub ghost struct CheckView {
    pub candidate_id: Seq<char>,
    pub safe: bool,
    pub confidence: u32,
    pub steps: Seq<StepView>,
    pub consequences: Option<ConsequencesView>,
    pub consequence_contract: Option<ContractView>,
    pub metrics: Option<Metrics>,
    pub reference_url: Option<Seq<char>>,
}

impl View for CheckResult {
    type V = CheckView;

    open spec fn view(&self) -> CheckView {
        CheckView {
            candidate_id: self.candidate_id@,
            safe: self.safe,
            confidence: self.confidence,
            steps: step_views(self.steps@),
            consequences: opt_consequences(self.consequences),
            consequence_contract: opt_contract(self.consequence_contract),
            metrics: self.metrics,
            reference_url: opt_view(self.reference_url),
        }
    }
}

pub open spec fn gate_view(
    candidate_id: Seq<char>,
    safe: bool,
    confidence: u32,
    steps: Seq<StepView>,
) -> CheckView {
    CheckView {
        candidate_id,
        safe,
        confidence,
        steps,
        consequences: None,
        consequence_contract: None,
        metrics: None,
        reference_url: None,
    }
}

impl CheckResult {
    /// A bare verdict, without any advisory field.
    pub fn gate(candidate_id: String, safe: bool, confidence: u32, steps: Vec<CheckStep>) -> (r:
        CheckResult)
        ensures
            r@ == gate_view(candidate_id@, safe, confidence, step_views(steps@)),
    {
        CheckResult {
            candidate_id,
            safe,
            confidence,
            steps,
            consequences: None,
            consequence_contract: None,
            metrics: None,
            reference_url: None,
        }
    }

    pub fn duplicate(&self) -> (r: CheckResult)
        ensures
            r@ == self@,
    {
        let mut steps: Vec<CheckStep> = Vec::new();
        let mut i: usize = 0;
        while i < self.steps.len()
            invariant
                i <= self.steps@.len(),
                steps@.len() == i,
                forall|j: int| 0 <= j < i ==> (#[trigger] steps@[j])@ == self.steps@[j]@,
            decreases self.steps.len() - i,
        {
            steps.push(self.steps[i].duplicate());
            i += 1;
        }
        assert(step_views(steps@) =~= step_views(self.steps@));
        CheckResult {
            candidate_id: self.candidate_id.as_str().to_owned(),
            safe: self.safe,
            confidence: self.confidence,
            steps,
            consequences: duplicate_consequences(&self.consequences),
            consequence_contract: duplicate_contract(&self.consequence_contract),
            metrics: self.metrics,
            reference_url: copy_option(&self.reference_url),
        }
    }
}

// ---------------------------------------------------------------------------
// The profile
// ---------------------------------------------------------------------------
/// A field of work, with whether the user is active in it.
#[derive(Debug)]
pub struct Domain {
    pub name: String,
    pub active: bool,
}

#[derive(Debug)]
pub struct PathPolicies {
    pub never_touch: Vec<String>,
    pub never_suggest: Vec<String>,
}

/// The preferences, sizes in bytes.
#[derive(Debug)]
pub struct Preferences {
    pub airlock_retention_days: u32,
    pub min_candidate_bytes: u64,
    pub pressure_threshold_bytes: u64,
    pub confirm_before_airlock: bool,
    pub watch_autoreclaim: bool,
}

#[derive(Debug)]
pub struct Profile {
    pub domains: Vec<Domain>,
    pub paths: PathPolicies,
    pub preferences: Preferences,
}

pub ghost struct ProfileView {
    pub domains: Seq<(Seq<char>, bool)>,
    pub never_touch: Seq<Seq<char>>,
    pub never_suggest: Seq<Seq<char>>,
    pub airlock_retention_days: u32,
    pub min_candidate_bytes: u64,
    pub pressure_threshold_bytes: u64,
    pub confirm_before_airlock: bool,
    pub watch_autoreclaim: bool,
}

impl View for Profile {
    type V = ProfileView;

    open spec fn view(&self) -> ProfileView {
        ProfileView {
            domains: self.domains@.map_values(|d: Domain| (d.name@, d.active)),
            never_touch: views(self.paths.never_touch@),
            never_suggest: views(self.paths.never_suggest@),
            airlock_retention_days: self.preferences.airlock_retention_days,
            min_candidate_bytes: self.preferences.min_candidate_bytes,
            pressure_threshold_bytes: self.preferences.pressure_threshold_bytes,
            confirm_before_airlock: self.preferences.confirm_before_airlock,
            watch_autoreclaim: self.preferences.watch_autoreclaim,
        }
    }
}

// ---------------------------------------------------------------------------
// Invocation
// ---------------------------------------------------------------------------
/// The switches that every command reads.
#[derive(Debug, Clone, Copy, PartialEq, Eq, Structural)]
pub struct Context {
    pub json: bool,
    pub yes: bool,
    pub no_color: bool,
    pub verbose: bool,
    pub quiet: bool,
}

impl Context {
    /// A person is there to answer.
    pub open spec fn interactive(self) -> bool {
        !self.json && !self.yes
    }
}

// ---------------------------------------------------------------------------
// Time
// ---------------------------------------------------------------------------
pub const NANOS_PER_SECOND: i128 = 1_000_000_000;

pub const SECONDS_PER_DAY: i128 = 86_400;

/// The quotient towards zero.
pub open spec fn quotient(n: int, d: int) -> int {
    if n >= 0 {
        n / d
    } else {
        -((-n) / d)
    }
}

/// Whole seconds from `then` to `now`, towards zero.
pub open spec fn seconds_between(now: i64, then: i64) -> int {
    quotient(now - then, NANOS_PER_SECOND as int)
}

/// Whole days from `then` to `now`, towards zero.
pub open spec fn days_between(now: i64, then: i64) -> int {
    quotient(now - then, NANOS_PER_SECOND * SECONDS_PER_DAY)
}

/// Whole hours from `then` to `now`, towards zero.
pub open spec fn hours_between(now: i64, then: i64) -> int {
    quotient(now - then, NANOS_PER_SECOND * 3600)
}

/// Whole minutes from `then` to `now`, towards zero.
pub open spec fn minutes_between(now: i64, then: i64) -> int {
    quotient(now - then, NANOS_PER_SECOND * 60)
}

fn divide(n: i128, d: i128) -> (r: i64)
    requires
        -0x1_0000_0000_0000_0000 < n < 0x1_0000_0000_0000_0000,
        d >= 1000,
    ensures
        r == quotient(n as int, d as int),
{
    if n >= 0 {
        let q: i128 = n / d;
        assert(0 <= q <= 0x80_0000_0000_0000) by (nonlinear_arith)
            requires
                q == n / d,
                0 <= n < 0x1_0000_0000_0000_0000,
                d >= 1000,
        ;
        q as i64
    } else {
        let m: i128 = -n;
        let q: i128 = m / d;
        assert(0 <= q <= 0x80_0000_0000_0000) by (nonlinear_arith)
            requires
                q == m / d,
                0 <= m < 0x1_0000_0000_0000_0000,
                d >= 1000,
        ;
        -(q as i64)
    }
}

pub fn elapsed_seconds(now: i64, then: i64) -> (r: i64)
    ensures
        r == seconds_between(now, then),
{
    divide(now as i128 - then as i128, 1_000_000_000)
}

pub fn elapsed_days(now: i64, then: i64) -> (r: i64)
    ensures
        r == days_between(now, then),
{
    divide(now as i128 - then as i128, 86_400_000_000_000)
}

pub fn elapsed_minutes(now: i64, then: i64) -> (r: i64)
    ensures
        r == minutes_between(now, then),
{
    divide(now as i128 - then as i128, 60_000_000_000)
}

pub fn elapsed_hours(now: i64, then: i64) -> (r: i64)
    ensures
        r == hours_between(now, then),
{
    divide(now as i128 - then as i128, 3_600_000_000_000)
}

} // verus!
