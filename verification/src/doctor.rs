//! Emergency recovery: how much to free, in which way, and with which safe candidates: the surest
//! first, and no more of them than it takes.

use crate::check::{pressure_test, Observations};
#[allow(unused_imports)]
use crate::check::{judged, never_touch_is_never_safe, steps_of, Question};
#[allow(unused_imports)]
use crate::detect::listed;
use crate::model::{
    duplicate_contract, elapsed_seconds, Candidate, CheckResult, ConsequenceContract, Consequences,
    Context, Profile, Rule, IMMEDIATE_THRESHOLD,
};
#[allow(unused_imports)]
use crate::model::{
    candidate_views, opt_contract, rule_views, seconds_between, CandidateView, CheckView,
    ConsequencesView, ContractView,
};
use crate::numbers::read_bytes;
#[allow(unused_imports)]
use crate::numbers::{bytes_of, number_of};
use crate::order::{order_of, pair_key, Key};
#[allow(unused_imports)]
use crate::order::{
    before, indices, key_views, lemma_pair_less, lemma_stable_order, pair, sorted_stably,
    stable_order,
};
use crate::text::{copy_option, drop_chars, has_suffix, same, to_lower, trim};
#[allow(unused_imports)]
use crate::text::{lowered, opt_str_view, trimmed, views};
use vstd::prelude::*;

verus! {

/// A scan older than this many seconds is made again.
pub const STALE_SCAN_SECS: i64 = 3600;

/// The free space that the acute phase reaches for, in millionths of the volume.
pub const DEFAULT_MIN_FREE: u64 = 30_000;

/// Free space from which the disk is never acute.
pub const ACUTE_ABS_FLOOR_BYTES: u64 = 2_147_483_648;

// ---------------------------------------------------------------------------
// Modes
// ---------------------------------------------------------------------------
/// How a path is removed.
#[derive(Debug, Clone, Copy, PartialEq, Eq, Structural)]
pub enum Mode {
    /// Moved aside; it can be brought back.
    Airlock,
    /// Deleted for good.
    Immediate,
}

impl Mode {
    pub open spec fn name(self) -> Seq<char> {
        match self {
            Mode::Airlock => "airlock"@,
            Mode::Immediate => "immediate"@,
        }
    }

    pub fn as_str(&self) -> (r: &'static str)
        ensures
            r@ == self.name(),
    {
        match self {
            Mode::Airlock => "airlock",
            Mode::Immediate => "immediate",
        }
    }

    pub open spec fn named(s: Seq<char>) -> Mode {
        if s == "immediate"@ {
            Mode::Immediate
        } else {
            Mode::Airlock
        }
    }

    /// The mode of a name; every other name is the reversible one.
    pub fn from_str(s: &str) -> (r: Mode)
        ensures
            r == Mode::named(s@),
    {
        if same(s, "immediate") {
            Mode::Immediate
        } else {
            Mode::Airlock
        }
    }
}

/// A mode's name names that mode.
pub proof fn mode_name_round_trips(m: Mode)
    ensures
        Mode::named(m.name()) == m,
{
    reveal_strlit("airlock");
    reveal_strlit("immediate");
    assert("airlock"@.len() != "immediate"@.len());
}

/// Below the pressure threshold only a deletion helps.
pub open spec fn mode_under_pressure(free: u64, threshold: u64) -> Mode {
    if free < threshold {
        Mode::Immediate
    } else {
        Mode::Airlock
    }
}

pub fn choose_mode(free: u64, threshold: u64) -> (r: Mode)
    ensures
        r == mode_under_pressure(free, threshold),
        r == Mode::Immediate <==> free < threshold,
{
    if free < threshold {
        Mode::Immediate
    } else {
        Mode::Airlock
    }
}

// ---------------------------------------------------------------------------
// Sizes
// ---------------------------------------------------------------------------
pub open spec fn ends_in(s: Seq<char>, suffix: Seq<char>) -> bool {
    s.len() >= suffix.len() && s.skip(s.len() - suffix.len()) == suffix
}

pub open spec fn without(s: Seq<char>, n: int) -> Seq<char> {
    s.take(s.len() - n)
}

/// The number of a size in lower case, and what its unit multiplies it by.
pub open spec fn need_parts(s: Seq<char>) -> (Seq<char>, u64) {
    if ends_in(s, "gb"@) {
        (without(s, 2), 1_073_741_824)
    } else if ends_in(s, "g"@) {
        (without(s, 1), 1_073_741_824)
    } else if ends_in(s, "mb"@) {
        (without(s, 2), 1_048_576)
    } else if ends_in(s, "m"@) {
        (without(s, 1), 1_048_576)
    } else if ends_in(s, "kb"@) {
        (without(s, 2), 1024)
    } else if ends_in(s, "k"@) {
        (without(s, 1), 1024)
    } else {
        (s, 1)
    }
}

/// The bytes of a size in lower case, if it is one.
pub open spec fn size_in(lower: Seq<char>) -> Option<u64> {
    let (text, factor) = need_parts(lower);
    match number_of(trimmed(text)) {
        Some(n) => Some(bytes_of(n, factor as nat) as u64),
        None => None,
    }
}

/// The bytes of a size as a person writes it, if it is one.
pub open spec fn size_of_text(s: Seq<char>) -> Option<u64> {
    size_in(lowered(trimmed(s)))
}

/// Cuts a unit off a size in lower case.
fn split_unit(s: &str) -> (r: (String, u64))
    ensures
        r.0@ == need_parts(s@).0,
        r.1 == need_parts(s@).1,
        1 <= r.1 <= 1_073_741_824,
{
    proof {
        reveal_strlit("gb");
        reveal_strlit("g");
        reveal_strlit("mb");
        reveal_strlit("m");
        reveal_strlit("kb");
        reveal_strlit("k");
    }
    if has_suffix(s, "gb") {
        (drop_chars(s, 2), 1_073_741_824)
    } else if has_suffix(s, "g") {
        (drop_chars(s, 1), 1_073_741_824)
    } else if has_suffix(s, "mb") {
        (drop_chars(s, 2), 1_048_576)
    } else if has_suffix(s, "m") {
        (drop_chars(s, 1), 1_048_576)
    } else if has_suffix(s, "kb") {
        (drop_chars(s, 2), 1024)
    } else if has_suffix(s, "k") {
        (drop_chars(s, 1), 1024)
    } else {
        (s.to_owned(), 1)
    }
}

/// The bytes of a size that is in lower case already.
pub fn parse_lower_size(lower: &str) -> (r: Option<u64>)
    ensures
        r == size_in(lower@),
{
    let (text, factor): (String, u64) = split_unit(lower);
    let number: String = trim(text.as_str());
    match read_bytes(number.as_str(), factor) {
        Some((bytes, _)) => Some(bytes),
        None => None,
    }
}

/// The bytes of a size like `20G`, `500M` or `1024`, in any case; units are powers of 1024. None
/// exactly where what stands before the unit is not a number.
pub fn parse_size(s: &str) -> (r: Option<u64>)
    ensures
        r == size_of_text(s@),
        r is None <==> number_of(trimmed(need_parts(lowered(trimmed(s@))).0)) is None,
{
    let t: String = trim(s);
    let lower: String = to_lower(t.as_str());
    parse_lower_size(lower.as_str())
}

/// What is needed where nothing was asked for: the pressure threshold and a gibibyte.
pub open spec fn default_need(threshold: u64) -> int {
    threshold + 1_073_741_824
}

pub open spec fn need_of(asked: Option<Seq<char>>, threshold: u64) -> int {
    match asked {
        None => default_need(threshold),
        Some(s) => match size_of_text(s) {
            Some(b) => b as int,
            None => default_need(threshold),
        },
    }
}

/// The free space to reach; what cannot be read counts as not asked for.
pub fn parse_need(s: Option<&str>, prof: &Profile) -> (r: u64)
    requires
        default_need(prof.preferences.pressure_threshold_bytes) <= u64::MAX,
    ensures
        r == need_of(opt_str_view(s), prof@.pressure_threshold_bytes),
{
    let default: u64 = prof.preferences.pressure_threshold_bytes + 1_073_741_824;
    match s {
        None => default,
        Some(raw) => match parse_size(raw) {
            Some(b) => b,
            None => default,
        },
    }
}

// ---------------------------------------------------------------------------
// Plans
// ---------------------------------------------------------------------------
/// One removal of a plan.
#[derive(Debug)]
pub struct PlanStep {
    pub candidate_id: String,
    pub rule_id: String,
    pub path: String,
    pub size_bytes: u64,
    pub confidence: u32,
    pub mode: String,
    pub reversible: bool,
    pub pressure: CheckResult,
    pub consequence_contract: Option<ConsequenceContract>,
}

pub ghost struct PlanStepView {
    pub candidate_id: Seq<char>,
    pub rule_id: Seq<char>,
    pub path: Seq<char>,
    pub size_bytes: u64,
    pub confidence: u32,
    pub mode: Seq<char>,
    pub reversible: bool,
    pub pressure: CheckView,
    pub consequence_contract: Option<ContractView>,
}

impl View for PlanStep {
    type V = PlanStepView;

    open spec fn view(&self) -> PlanStepView {
        PlanStepView {
            candidate_id: self.candidate_id@,
            rule_id: self.rule_id@,
            path: self.path@,
            size_bytes: self.size_bytes,
            confidence: self.confidence,
            mode: self.mode@,
            reversible: self.reversible,
            pressure: self.pressure@,
            consequence_contract: opt_contract(self.consequence_contract),
        }
    }
}

pub open spec fn plan_step_views(v: Seq<PlanStep>) -> Seq<PlanStepView> {
    v.map_values(|s: PlanStep| s@)
}

/// The removals that together reach a need.
#[derive(Debug)]
pub struct Plan {
    pub plan_hash: String,
    pub need_bytes: u64,
    pub steps: Vec<PlanStep>,
    pub projected_freed: u128,
    pub created_at: i64,
}

pub open spec fn check_views(v: Seq<CheckResult>) -> Seq<CheckView> {
    v.map_values(|r: CheckResult| r@)
}

/// The positions of the checks that found a path safe.
pub open spec fn cleared(rs: Seq<CheckView>) -> Seq<int>
    decreases rs.len(),
{
    if rs.len() == 0 {
        Seq::empty()
    } else if rs.last().safe {
        cleared(rs.drop_last()).push(rs.len() - 1)
    } else {
        cleared(rs.drop_last())
    }
}

/// The surer first; of equally sure ones the larger.
pub open spec fn plan_key(c: CandidateView) -> Seq<Seq<int>> {
    pair(0xffff_ffff - c.confidence, 0xffff_ffff_ffff_ffff - c.size_bytes)
}

pub open spec fn plan_keys(cs: Seq<CandidateView>, picks: Seq<int>) -> Seq<Seq<Seq<int>>> {
    picks.map_values(|i: int| plan_key(cs[i]))
}

/// The safe candidates in the order in which a plan takes them.
pub open spec fn plan_order(cs: Seq<CandidateView>, rs: Seq<CheckView>) -> Seq<int> {
    sorted_stably(cleared(rs), plan_keys(cs, cleared(rs)))
}

/// The bytes of the candidates at some positions.
pub open spec fn bytes_at(cs: Seq<CandidateView>, picks: Seq<int>) -> nat
    decreases picks.len(),
{
    if picks.len() == 0 {
        0
    } else {
        bytes_at(cs, picks.drop_last()) + cs[picks.last()].size_bytes as nat
    }
}

/// How many of the positions, from `k` on, it takes to reach a need.
pub open spec fn reach(cs: Seq<CandidateView>, order: Seq<int>, need: u64, k: nat) -> nat
    decreases order.len() - k,
{
    if k >= order.len() || bytes_at(cs, order.take(k as int)) >= need {
        k
    } else {
        reach(cs, order, need, k + 1)
    }
}

pub open spec fn plan_step(c: CandidateView, r: CheckView, mode: Mode) -> PlanStepView {
    PlanStepView {
        candidate_id: c.id,
        rule_id: c.rule_id,
        path: c.path,
        size_bytes: c.size_bytes,
        confidence: c.confidence,
        mode: mode.name(),
        reversible: mode == Mode::Airlock,
        pressure: r,
        consequence_contract: c.consequence_contract,
    }
}

/// The positions that a plan takes: of the safe candidates in order, as many as it needs.
pub open spec fn chosen(cs: Seq<CandidateView>, rs: Seq<CheckView>, need: u64) -> Seq<int> {
    let order = plan_order(cs, rs);
    order.take(reach(cs, order, need, 0) as int)
}

pub open spec fn planned(
    cs: Seq<CandidateView>,
    rs: Seq<CheckView>,
    need: u64,
    mode: Mode,
) -> Seq<PlanStepView> {
    chosen(cs, rs, need).map_values(|i: int| plan_step(cs[i], rs[i], mode))
}

pub proof fn lemma_cleared(rs: Seq<CheckView>)
    ensures
        cleared(rs).len() <= rs.len(),
        forall|k: int|
            0 <= k < cleared(rs).len() ==> 0 <= #[trigger] cleared(rs)[k] < rs.len()
                && rs[cleared(rs)[k]].safe,
    decreases rs.len(),
{
    if rs.len() > 0 {
        lemma_cleared(rs.drop_last());
        let s = cleared(rs.drop_last());
        assert forall|k: int| 0 <= k < cleared(rs).len() implies 0 <= #[trigger] cleared(rs)[k]
            < rs.len() && rs[cleared(rs)[k]].safe by {
            if k < s.len() {
                assert(cleared(rs)[k] == s[k]);
                assert(rs.drop_last()[s[k]] == rs[s[k]]);
            }
        }
    }
}

pub proof fn lemma_plan_order(cs: Seq<CandidateView>, rs: Seq<CheckView>)
    ensures
        plan_order(cs, rs).len() == cleared(rs).len(),
        forall|k: int|
            0 <= k < plan_order(cs, rs).len() ==> 0 <= #[trigger] plan_order(cs, rs)[k] < rs.len()
                && rs[plan_order(cs, rs)[k]].safe,
{
    lemma_cleared(rs);
    lemma_stable_order(plan_keys(cs, cleared(rs)));
}

pub proof fn lemma_reach(cs: Seq<CandidateView>, order: Seq<int>, need: u64, k: nat)
    requires
        k <= order.len(),
    ensures
        k <= reach(cs, order, need, k) <= order.len(),
        reach(cs, order, need, k) == order.len() || bytes_at(
            cs,
            order.take(reach(cs, order, need, k) as int),
        ) >= need,
        forall|j: nat|
            k <= j < reach(cs, order, need, k) ==> #[trigger] bytes_at(cs, order.take(j as int))
                < need,
    decreases order.len() - k,
{
    if k < order.len() && bytes_at(cs, order.take(k as int)) < need {
        lemma_reach(cs, order, need, k + 1);
    }
}

fn safe_positions(results: &Vec<CheckResult>) -> (r: Vec<usize>)
    ensures
        indices(r@) == cleared(check_views(results@)),
        forall|k: int| 0 <= k < r@.len() ==> #[trigger] r@[k] < results@.len(),
{
    let ghost w = check_views(results@);
    let mut out: Vec<usize> = Vec::new();
    let mut i: usize = 0;
    assert(w.take(0) =~= Seq::<CheckView>::empty());
    assert(indices(out@) =~= Seq::<int>::empty());
    while i < results.len()
        invariant
            i <= results@.len(),
            w == check_views(results@),
            indices(out@) == cleared(w.take(i as int)),
            forall|k: int| 0 <= k < out@.len() ==> #[trigger] out@[k] < results@.len(),
        decreases results.len() - i,
    {
        let ghost before = indices(out@);
        assert(w.take(i + 1).drop_last() =~= w.take(i as int));
        assert(w.take(i + 1).last() == results@[i as int]@);
        if results[i].safe {
            out.push(i);
            assert(indices(out@) =~= before.push(i as int));
        }
        i += 1;
    }
    assert(w.take(i as int) =~= w);
    out
}

fn plan_step_for(c: &Candidate, r: &CheckResult, mode: Mode) -> (s: PlanStep)
    ensures
        s@ == plan_step(c@, r@, mode),
{
    PlanStep {
        candidate_id: c.id.as_str().to_owned(),
        rule_id: c.rule_id.as_str().to_owned(),
        path: c.path.as_str().to_owned(),
        size_bytes: c.size_bytes,
        confidence: c.confidence,
        mode: mode.as_str().to_owned(),
        reversible: mode == Mode::Airlock,
        pressure: r.duplicate(),
        consequence_contract: duplicate_contract(&c.consequence_contract),
    }
}

/// The plan over candidates whose checks are known: of those found safe the surest and largest
/// first, until the need is met.
pub fn select_plan(
    need_bytes: u64,
    mode: Mode,
    candidates: &Vec<Candidate>,
    results: &Vec<CheckResult>,
    now: i64,
) -> (r: Plan)
    requires
        candidates@.len() == results@.len(),
    ensures
        plan_step_views(r.steps@) == planned(
            candidate_views(candidates@),
            check_views(results@),
            need_bytes,
            mode,
        ),
        r.projected_freed == bytes_at(
            candidate_views(candidates@),
            chosen(candidate_views(candidates@), check_views(results@), need_bytes),
        ),
        r.need_bytes == need_bytes,
        r.created_at == now,
        r.plan_hash@ == ""@,
{
    let ghost cs = candidate_views(candidates@);
    let ghost rs = check_views(results@);
    let safe: Vec<usize> = safe_positions(results);
    let mut keys: Vec<Key> = Vec::new();
    let mut i: usize = 0;
    while i < safe.len()
        invariant
            i <= safe@.len(),
            candidates@.len() == results@.len(),
            cs == candidate_views(candidates@),
            forall|k: int| 0 <= k < safe@.len() ==> #[trigger] safe@[k] < results@.len(),
            keys@.len() == i,
            forall|j: int|
                0 <= j < i ==> (#[trigger] keys@[j])@ == plan_key(cs[safe@[j] as int]),
        decreases safe.len() - i,
    {
        let c: &Candidate = &candidates[safe[i]];
        assert(cs[safe@[i as int] as int] == c@);
        keys.push(
            pair_key(0xffff_ffff - c.confidence as u64, 0xffff_ffff_ffff_ffff - c.size_bytes),
        );
        i += 1;
    }
    assert(key_views(keys@) =~= plan_keys(cs, cleared(rs))) by {
        assert forall|j: int| 0 <= j < keys@.len() implies (#[trigger] keys@[j])@ == plan_key(
            cs[cleared(rs)[j]],
        ) by {
            assert(indices(safe@)[j] == safe@[j] as int);
        }
        assert(cleared(rs).len() == indices(safe@).len());
    }
    let order: Vec<usize> = order_of(&keys);
    let ghost full = plan_order(cs, rs);
    proof {
        lemma_plan_order(cs, rs);
        lemma_stable_order(plan_keys(cs, cleared(rs)));
        assert(indices(order@).len() == order@.len());
        assert(full.len() == order@.len());
    }
    let mut steps: Vec<PlanStep> = Vec::new();
    let mut sum: u128 = 0;
    let mut k: usize = 0;
    assert(full.take(0) =~= Seq::<int>::empty());
    while k < order.len() && sum < need_bytes as u128
        invariant
            k <= order@.len(),
            candidates@.len() == results@.len(),
            cs == candidate_views(candidates@),
            rs == check_views(results@),
            full == plan_order(cs, rs),
            full.len() == order@.len(),
            indices(safe@) == cleared(rs),
            indices(order@) == stable_order(plan_keys(cs, cleared(rs))),
            forall|j: int| 0 <= j < safe@.len() ==> #[trigger] safe@[j] < results@.len(),
            forall|j: int| 0 <= j < order@.len() ==> #[trigger] order@[j] < safe@.len(),
            sum == bytes_at(cs, full.take(k as int)),
            sum <= 0x2_0000_0000_0000_0000,
            reach(cs, full, need_bytes, 0) == reach(cs, full, need_bytes, k as nat),
            steps@.len() == k,
            forall|j: int|
                0 <= j < k ==> (#[trigger] steps@[j])@ == plan_step(cs[full[j]], rs[full[j]], mode),
        decreases order.len() - k,
    {
        let at: usize = safe[order[k]];
        proof {
            assert(indices(order@)[k as int] == order@[k as int] as int);
            assert(indices(safe@)[order@[k as int] as int] == at as int);
            assert(full[k as int] == at as int);
            assert(full.take(k + 1).drop_last() =~= full.take(k as int));
            assert(full.take(k + 1).last() == at as int);
            assert(cs[at as int] == candidates@[at as int]@);
            assert(rs[at as int] == results@[at as int]@);
        }
        sum = sum + candidates[at].size_bytes as u128;
        steps.push(plan_step_for(&candidates[at], &results[at], mode));
        k += 1;
    }
    assert(plan_step_views(steps@) =~= planned(cs, rs, need_bytes, mode));
    Plan {
        plan_hash: "".to_owned(),
        need_bytes,
        steps,
        projected_freed: sum,
        created_at: now,
    }
}

/// What the checks of candidates say, given what was seen of each. The path of `q` plays no part:
/// each candidate is asked about by its own. The sizes of a plan are held against the disk when
/// it is applied.
pub open spec fn checked(
    cs: Seq<CandidateView>,
    q: Question,
    seen: Seq<Observations>,
) -> Seq<CheckView> {
    Seq::new(
        cs.len(),
        |i: int| judged(cs[i].id, steps_of(Question { path: cs[i].path, ..q }, seen[i])),
    )
}

/// The plan for a need: every candidate is checked against what was seen of it, and only safe
/// ones are taken.
pub fn build_plan(
    need_bytes: u64,
    mode: Mode,
    prof: &Profile,
    rules: &Vec<Rule>,
    home: &str,
    secret_stores: &Vec<String>,
    candidates: &Vec<Candidate>,
    seen: &Vec<Observations>,
    now: i64,
) -> (r: Plan)
    requires
        candidates@.len() == seen@.len(),
    ensures
        ({
            let cs = candidate_views(candidates@);
            let q = Question {
                path: home@,
                recorded: None,
                prof: prof@,
                rules: rule_views(rules@),
                home: home@,
                secret_stores: views(secret_stores@),
                now,
            };
            let rs = checked(cs, q, seen@);
            &&& plan_step_views(r.steps@) == planned(cs, rs, need_bytes, mode)
            &&& r.projected_freed == bytes_at(cs, chosen(cs, rs, need_bytes))
            &&& r.need_bytes == need_bytes
            &&& r.created_at == now
            &&& r.plan_hash@ == ""@
        }),
{
    let ghost cs = candidate_views(candidates@);
    let ghost q = Question {
        path: home@,
        recorded: None,
        prof: prof@,
        rules: rule_views(rules@),
        home: home@,
        secret_stores: views(secret_stores@),
        now,
    };
    let mut results: Vec<CheckResult> = Vec::new();
    let mut i: usize = 0;
    while i < candidates.len()
        invariant
            i <= candidates@.len(),
            candidates@.len() == seen@.len(),
            cs == candidate_views(candidates@),
            q == (Question {
                path: home@,
                recorded: None,
                prof: prof@,
                rules: rule_views(rules@),
                home: home@,
                secret_stores: views(secret_stores@),
                now,
            }),
            results@.len() == i,
            forall|j: int|
                0 <= j < i ==> (#[trigger] results@[j])@ == judged(
                    cs[j].id,
                    steps_of(Question { path: cs[j].path, ..q }, seen@[j]),
                ),
        decreases candidates.len() - i,
    {
        let c: &Candidate = &candidates[i];
        assert(cs[i as int] == c@);
        results.push(
            pressure_test(
                c.id.as_str(),
                c.path.as_str(),
                None,
                prof,
                rules,
                home,
                secret_stores,
                &seen[i],
                now,
            ),
        );
        i += 1;
    }
    assert(check_views(results@) =~= checked(cs, q, seen@));
    select_plan(need_bytes, mode, candidates, &results, now)
}

// ---------------------------------------------------------------------------
// The run
// ---------------------------------------------------------------------------
/// Where nobody is there to answer, a run that acts needs a grant.
pub open spec fn grant_missing(ctx: Context, actuation: bool, has_grant: bool) -> bool {
    actuation && !ctx.interactive() && !has_grant
}

pub fn refuses_without_grant(ctx: &Context, actuation: bool, has_grant: bool) -> (r: bool)
    ensures
        r == grant_missing(*ctx, actuation, has_grant),
{
    actuation && (ctx.json || ctx.yes) && !has_grant
}

/// How the acute phase ended.
#[derive(Debug, Clone, Copy, PartialEq, Eq, Structural)]
pub struct AcuteResult {
    pub free_after: u64,
    pub target_reached: bool,
}

/// The end of the acute phase by the last reading; without one the space is as it was.
pub fn acute_result(free_before: u64, reading: Option<u64>, target: u64) -> (r: AcuteResult)
    ensures
        r.free_after == (match reading {
            Some(f) => f,
            None => free_before,
        }),
        r.target_reached == (r.free_after >= target),
{
    let free_after: u64 = match reading {
        Some(f) => f,
        None => free_before,
    };
    AcuteResult { free_after, target_reached: free_after >= target }
}

/// Where a run goes once the acute phase is over.
#[derive(Debug, Clone, Copy, PartialEq, Eq, Structural)]
pub enum Stage {
    /// The disk is still in danger: stop without a new scan.
    Unmet { free: u64, shortfall: u64 },
    /// The danger is over and nothing more was asked for.
    Triage { free: u64 },
    /// There is enough already.
    Sufficient { free: u64 },
    /// So much is still to be freed, in this way.
    Recover { free: u64, bytes: u64, mode: Mode },
}

pub open spec fn stage_of(
    acute: Option<AcuteResult>,
    free: u64,
    need: u64,
    need_given: bool,
    threshold: u64,
) -> Stage {
    let now = match acute {
        Some(a) => a.free_after,
        None => free,
    };
    if acute is Some && !acute->0.target_reached {
        Stage::Unmet {
            free: now,
            shortfall: if need > now {
                (need - now) as u64
            } else {
                0
            },
        }
    } else if acute is Some && !need_given {
        Stage::Triage { free: now }
    } else if now >= need {
        Stage::Sufficient { free: now }
    } else {
        Stage::Recover {
            free: now,
            bytes: (need - now) as u64,
            mode: mode_under_pressure(now, threshold),
        }
    }
}

/// Where a run goes: a disk that is still in danger is never scanned again, and one that was
/// just rescued only for a need that was asked for.
pub fn next_stage(
    acute: Option<AcuteResult>,
    free: u64,
    need: u64,
    need_given: bool,
    threshold: u64,
) -> (r: Stage)
    ensures
        r == stage_of(acute, free, need, need_given, threshold),
{
    let now: u64 = match acute {
        Some(a) => a.free_after,
        None => free,
    };
    if let Some(a) = acute {
        if !a.target_reached {
            let shortfall: u64 = if need > now {
                need - now
            } else {
                0
            };
            return Stage::Unmet { free: now, shortfall };
        }
        if !need_given {
            return Stage::Triage { free: now };
        }
    }
    if now >= need {
        Stage::Sufficient { free: now }
    } else {
        Stage::Recover { free: now, bytes: need - now, mode: choose_mode(now, threshold) }
    }
}

/// A run goes on to a new scan only where the disk was never in danger, or is out of it and a need
/// was asked for.
pub proof fn danger_forbids_a_scan(
    acute: Option<AcuteResult>,
    free: u64,
    need: u64,
    need_given: bool,
    threshold: u64,
)
    requires
        stage_of(acute, free, need, need_given, threshold) is Recover,
    ensures
        acute is None || (acute->0.target_reached && need_given),
{
}

/// The commands that the triage handoff names.
pub fn triage_commands() -> (r: Vec<String>)
    ensures
        views(r@) == seq![
            "diskspace detect"@,
            "diskspace doctor --need <size>"@,
            "diskspace classify"@,
        ],
{
    let mut v: Vec<String> = Vec::new();
    v.push("diskspace detect".to_owned());
    v.push("diskspace doctor --need <size>".to_owned());
    v.push("diskspace classify".to_owned());
    assert(views(v@) =~= seq![
        "diskspace detect"@,
        "diskspace doctor --need <size>"@,
        "diskspace classify"@,
    ]);
    v
}

/// The steps that are left where the disk is still in danger.
pub fn unmet_commands() -> (r: Vec<String>)
    ensures
        views(r@) == seq![
            "free a little more space by hand"@,
            "diskspace survey"@,
            "diskspace doctor --need <size>"@,
        ],
{
    let mut v: Vec<String> = Vec::new();
    v.push("free a little more space by hand".to_owned());
    v.push("diskspace survey".to_owned());
    v.push("diskspace doctor --need <size>".to_owned());
    assert(views(v@) =~= seq![
        "free a little more space by hand"@,
        "diskspace survey"@,
        "diskspace doctor --need <size>"@,
    ]);
    v
}

/// Whether a scan of that time still counts.
pub fn scan_is_fresh(now: i64, scanned: i64) -> (r: bool)
    ensures
        r == (seconds_between(now, scanned) < STALE_SCAN_SECS),
        r == (now - scanned < 3_600_000_000_000),
{
    elapsed_seconds(now, scanned) < STALE_SCAN_SECS
}

/// A step that deletes for good with less than the required confidence is marked.
pub open spec fn needs_warning(mode: Mode, confidence: u32) -> bool {
    mode == Mode::Immediate && confidence < IMMEDIATE_THRESHOLD
}

pub fn preflight_warns(mode: Mode, confidence: u32) -> (r: bool)
    ensures
        r == needs_warning(mode, confidence),
{
    mode == Mode::Immediate && confidence < IMMEDIATE_THRESHOLD
}

pub open spec fn contract_consequences(c: ContractView) -> ConsequencesView {
    ConsequencesView {
        recovery: c.recovery_class,
        rebuild_seconds: c.recovery_cost_seconds,
        impact: c.impact,
        recovery_cmd: c.recovery_cmd,
    }
}

/// The consequences that a contract was made from.
pub fn consequences_from_contract(cc: &ConsequenceContract) -> (r: Consequences)
    ensures
        r@ == contract_consequences(cc@),
{
    Consequences {
        recovery: cc.recovery_class.as_str().to_owned(),
        rebuild_seconds: cc.recovery_cost_seconds,
        impact: cc.impact.as_str().to_owned(),
        recovery_cmd: copy_option(&cc.recovery_cmd),
    }
}

// ---------------------------------------------------------------------------
// What holds of every plan
// ---------------------------------------------------------------------------
/// Every step of a plan passed its check, and stands for the candidate that was checked.
pub proof fn plan_takes_only_safe_candidates(
    cs: Seq<CandidateView>,
    rs: Seq<CheckView>,
    need: u64,
    mode: Mode,
    k: int,
)
    requires
        0 <= k < planned(cs, rs, need, mode).len(),
    ensures
        planned(cs, rs, need, mode)[k].pressure.safe,
        exists|i: int|
            0 <= i < rs.len() && #[trigger] rs[i].safe && planned(cs, rs, need, mode)[k]
                == plan_step(cs[i], rs[i], mode),
{
    let order = plan_order(cs, rs);
    lemma_plan_order(cs, rs);
    lemma_reach(cs, order, need, 0);
    let i = order[k];
    assert(chosen(cs, rs, need)[k] == i);
    assert(rs[i].safe);
    assert(planned(cs, rs, need, mode)[k] == plan_step(cs[i], rs[i], mode));
}

/// A plan reaches its need, or it takes every safe candidate there is.
pub proof fn plan_reaches_need_or_takes_all(
    cs: Seq<CandidateView>,
    rs: Seq<CheckView>,
    need: u64,
)
    ensures
        bytes_at(cs, chosen(cs, rs, need)) >= need || chosen(cs, rs, need).len() == cleared(
            rs,
        ).len(),
{
    let order = plan_order(cs, rs);
    lemma_plan_order(cs, rs);
    lemma_reach(cs, order, need, 0);
}

/// A plan stops at its need: without its last step it would fall short.
pub proof fn plan_stops_at_need(cs: Seq<CandidateView>, rs: Seq<CheckView>, need: u64)
    requires
        chosen(cs, rs, need).len() > 0,
    ensures
        bytes_at(cs, chosen(cs, rs, need).drop_last()) < need,
{
    let order = plan_order(cs, rs);
    lemma_plan_order(cs, rs);
    lemma_reach(cs, order, need, 0);
    let k = reach(cs, order, need, 0);
    let j = (k - 1) as nat;
    assert(chosen(cs, rs, need).drop_last() =~= order.take(j as int));
    assert(bytes_at(cs, order.take(j as int)) < need);
}

/// A plan takes the surer candidate first, and of equally sure ones the larger.
pub proof fn plan_takes_the_surest_first(
    cs: Seq<CandidateView>,
    rs: Seq<CheckView>,
    need: u64,
    i: int,
    j: int,
)
    requires
        0 <= i < j < chosen(cs, rs, need).len(),
    ensures
        ({
            let (a, b) = (cs[chosen(cs, rs, need)[i]], cs[chosen(cs, rs, need)[j]]);
            a.confidence > b.confidence || (a.confidence == b.confidence && a.size_bytes
                >= b.size_bytes)
        }),
{
    let picks = cleared(rs);
    let keys = plan_keys(cs, picks);
    let o = stable_order(keys);
    lemma_stable_order(keys);
    lemma_reach(cs, plan_order(cs, rs), need, 0);
    lemma_plan_order(cs, rs);
    assert(before(keys, o[i], o[j]));
    let (a, b) = (cs[picks[o[i]]], cs[picks[o[j]]]);
    lemma_pair_less(
        0xffff_ffff - a.confidence,
        0xffff_ffff_ffff_ffff - a.size_bytes,
        0xffff_ffff - b.confidence,
        0xffff_ffff_ffff_ffff - b.size_bytes,
    );
    assert(keys[o[i]] == plan_key(a) && keys[o[j]] == plan_key(b));
    assert(chosen(cs, rs, need)[i] == picks[o[i]]);
    assert(chosen(cs, rs, need)[j] == picks[o[j]]);
}

/// No plan takes a path that a never-touch pattern accepts.
pub proof fn plan_leaves_out_never_touch(
    cs: Seq<CandidateView>,
    q: Question,
    seen: Seq<Observations>,
    need: u64,
    mode: Mode,
    k: int,
)
    requires
        0 <= k < planned(cs, checked(cs, q, seen), need, mode).len(),
    ensures
        !listed(planned(cs, checked(cs, q, seen), need, mode)[k].path, q.prof.never_touch, q.home),
{
    let rs = checked(cs, q, seen);
    plan_takes_only_safe_candidates(cs, rs, need, mode, k);
    let i = choose|i: int|
        0 <= i < rs.len() && #[trigger] rs[i].safe && planned(cs, rs, need, mode)[k] == plan_step(
            cs[i],
            rs[i],
            mode,
        );
    let asked = Question { path: cs[i].path, ..q };
    assert(rs[i] == judged(cs[i].id, steps_of(asked, seen[i])));
    if listed(asked.path, q.prof.never_touch, q.home) {
        never_touch_is_never_safe(cs[i].id, asked, seen[i]);
    }
}

} // verus!
