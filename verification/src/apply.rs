//! Applying a plan: everything it rests on is looked at again before anything is touched.

use crate::check::{pressure_test, Observations};
#[allow(unused_imports)]
use crate::check::{judged, steps_of, Question};
use crate::doctor::{Plan, PlanStep};
#[allow(unused_imports)]
use crate::doctor::{plan_step_views, PlanStepView};
use crate::model::{CheckResult, Profile, Rule};
#[allow(unused_imports)]
use crate::model::rule_views;
use crate::plan::compute_plan_hash;
#[allow(unused_imports)]
use crate::plan::{actions, canonical, sha256_text};
use crate::text::{same, to_decimal};
#[allow(unused_imports)]
use crate::text::{decimal, views};
use vstd::prelude::*;

verus! {

/// Why a plan is not applied.
#[derive(Debug)]
pub enum Refusal {
    HashMismatch { expected: String, actual: String },
    Missing { path: String },
    SizeDrift { path: String, planned: u64, found: u64 },
    Unsafe { path: String, candidate_id: String },
}

pub ghost enum RefusalView {
    HashMismatch { expected: Seq<char>, actual: Seq<char> },
    Missing { path: Seq<char> },
    SizeDrift { path: Seq<char>, planned: u64, found: u64 },
    Unsafe { path: Seq<char>, candidate_id: Seq<char> },
}

impl View for Refusal {
    type V = RefusalView;

    open spec fn view(&self) -> RefusalView {
        match self {
            Refusal::HashMismatch { expected, actual } => RefusalView::HashMismatch {
                expected: expected@,
                actual: actual@,
            },
            Refusal::Missing { path } => RefusalView::Missing { path: path@ },
            Refusal::SizeDrift { path, planned, found } => RefusalView::SizeDrift {
                path: path@,
                planned: *planned,
                found: *found,
            },
            Refusal::Unsafe { path, candidate_id } => RefusalView::Unsafe {
                path: path@,
                candidate_id: candidate_id@,
            },
        }
    }
}

impl RefusalView {
    pub open spec fn text(self) -> Seq<char> {
        match self {
            RefusalView::HashMismatch { expected, actual } => {
                "plan hash mismatch: file recomputes to "@ + actual + " but "@ + expected
                    + " was requested (tampered or stale plan)"@
            },
            RefusalView::Missing { path } => {
                "target no longer exists: "@ + path + " (refusing — plan is stale)"@
            },
            RefusalView::SizeDrift { path, planned, found } => {
                "target size drifted >10%: "@ + path + " planned "@ + decimal(planned as nat)
                    + " bytes, now "@ + decimal(found as nat) + " bytes (refusing)"@
            },
            RefusalView::Unsafe { path, candidate_id } => {
                "live pressure-test now UNSAFE for "@ + path + " ("@ + candidate_id
                    + ") — refusing to act on a stale-safe plan"@
            },
        }
    }

    /// A path that is no longer safe has a code of its own.
    pub open spec fn code(self) -> i32 {
        match self {
            RefusalView::Unsafe { .. } => 2,
            _ => 1,
        }
    }
}

impl Refusal {
    /// The reason in words.
    pub fn reason(&self) -> (r: String)
        ensures
            r@ == self@.text(),
    {
        match self {
            Refusal::HashMismatch { expected, actual } => {
                let mut s: String = "plan hash mismatch: file recomputes to ".to_owned();
                s.append(actual.as_str());
                s.append(" but ");
                s.append(expected.as_str());
                s.append(" was requested (tampered or stale plan)");
                s
            },
            Refusal::Missing { path } => {
                let mut s: String = "target no longer exists: ".to_owned();
                s.append(path.as_str());
                s.append(" (refusing — plan is stale)");
                s
            },
            Refusal::SizeDrift { path, planned, found } => {
                let a: String = to_decimal(*planned);
                let b: String = to_decimal(*found);
                let mut s: String = "target size drifted >10%: ".to_owned();
                s.append(path.as_str());
                s.append(" planned ");
                s.append(a.as_str());
                s.append(" bytes, now ");
                s.append(b.as_str());
                s.append(" bytes (refusing)");
                s
            },
            Refusal::Unsafe { path, candidate_id } => {
                let mut s: String = "live pressure-test now UNSAFE for ".to_owned();
                s.append(path.as_str());
                s.append(" (");
                s.append(candidate_id.as_str());
                s.append(") — refusing to act on a stale-safe plan");
                s
            },
        }
    }

    /// The exit code of the process.
    pub fn exit_code(&self) -> (r: i32)
        ensures
            r == self@.code(),
    {
        match self {
            Refusal::Unsafe { .. } => 2,
            _ => 1,
        }
    }
}

// ---------------------------------------------------------------------------
// Sizes
// ---------------------------------------------------------------------------
/// The bytes that a file takes on the disk: its blocks, each of 512 bytes. A file with contents
/// but without blocks is only a placeholder.
pub open spec fn on_disk(len: u64, blocks: u64) -> int {
    if len > 4096 && blocks == 0 {
        0
    } else {
        blocks * 512
    }
}

pub fn file_on_disk_bytes(len: u64, blocks: u64) -> (r: u64)
    requires
        blocks <= u64::MAX / 512,
    ensures
        r == on_disk(len, blocks),
{
    if len > 4096 && blocks == 0 {
        return 0;
    }
    blocks * 512
}

/// The size moved by more than a tenth of what was planned.
pub open spec fn drifted(planned: u64, now: u64) -> bool {
    10 * (if now >= planned {
        now - planned
    } else {
        planned - now
    }) > planned
}

pub fn has_drifted(planned: u64, now: u64) -> (r: bool)
    ensures
        r == drifted(planned, now),
{
    let delta: u64 = if now >= planned {
        now - planned
    } else {
        planned - now
    };
    10 * delta as u128 > planned as u128
}

// ---------------------------------------------------------------------------
// Looking again
// ---------------------------------------------------------------------------
/// What a step's path looks like now.
#[derive(Debug, Clone, Copy, PartialEq, Eq, Structural)]
pub struct Live {
    pub exists: bool,
    pub size: u64,
    pub safe: bool,
}

/// What speaks against a step, if anything does: that its path is gone, that its size moved,
/// or that it is no longer safe, in this order.
pub open spec fn objection(step: PlanStepView, live: Live) -> Option<RefusalView> {
    if !live.exists {
        Some(RefusalView::Missing { path: step.path })
    } else if drifted(step.size_bytes, live.size) {
        Some(
            RefusalView::SizeDrift {
                path: step.path,
                planned: step.size_bytes,
                found: live.size,
            },
        )
    } else if !live.safe {
        Some(RefusalView::Unsafe { path: step.path, candidate_id: step.candidate_id })
    } else {
        None
    }
}

/// The first objection to a step from position `k` on.
pub open spec fn first_objection(
    steps: Seq<PlanStepView>,
    live: Seq<Live>,
    k: int,
) -> Option<RefusalView>
    decreases steps.len() - k,
{
    if k >= steps.len() {
        None
    } else if objection(steps[k], live[k]) is Some {
        objection(steps[k], live[k])
    } else {
        first_objection(steps, live, k + 1)
    }
}

/// What speaks against a plan: that its hash is not the one asked for, else the first objection
/// to a step.
pub open spec fn plan_objection(
    steps: Seq<PlanStepView>,
    requested: Seq<char>,
    actual: Seq<char>,
    live: Seq<Live>,
) -> Option<RefusalView> {
    if actual != requested {
        Some(RefusalView::HashMismatch { expected: requested, actual })
    } else {
        first_objection(steps, live, 0)
    }
}

pub open spec fn refusal_of(r: Result<(), Refusal>) -> Option<RefusalView> {
    match r {
        Ok(_) => None,
        Err(e) => Some(e@),
    }
}

/// Holds a plan with a hash against what its paths look like now.
pub fn revalidate_live(
    plan: &Plan,
    requested_hash: &str,
    actual_hash: &str,
    live: &Vec<Live>,
) -> (r: Result<(), Refusal>)
    requires
        live@.len() == plan.steps@.len(),
    ensures
        refusal_of(r) == plan_objection(
            plan_step_views(plan.steps@),
            requested_hash@,
            actual_hash@,
            live@,
        ),
{
    if !same(actual_hash, requested_hash) {
        return Err(
            Refusal::HashMismatch {
                expected: requested_hash.to_owned(),
                actual: actual_hash.to_owned(),
            },
        );
    }
    let ghost steps = plan_step_views(plan.steps@);
    let mut i: usize = 0;
    while i < plan.steps.len()
        invariant
            i <= plan.steps@.len(),
            live@.len() == plan.steps@.len(),
            steps == plan_step_views(plan.steps@),
            actual_hash@ == requested_hash@,
            first_objection(steps, live@, 0) == first_objection(steps, live@, i as int),
        decreases plan.steps.len() - i,
    {
        let step: &PlanStep = &plan.steps[i];
        assert(steps[i as int] == step@);
        let now: Live = live[i];
        if !now.exists {
            return Err(Refusal::Missing { path: step.path.as_str().to_owned() });
        }
        if has_drifted(step.size_bytes, now.size) {
            return Err(
                Refusal::SizeDrift {
                    path: step.path.as_str().to_owned(),
                    planned: step.size_bytes,
                    found: now.size,
                },
            );
        }
        if !now.safe {
            return Err(
                Refusal::Unsafe {
                    path: step.path.as_str().to_owned(),
                    candidate_id: step.candidate_id.as_str().to_owned(),
                },
            );
        }
        i += 1;
    }
    Ok(())
}

/// What the caller saw of a step's path.
#[derive(Debug)]
pub struct Sighting {
    pub exists: bool,
    pub size: u64,
    pub seen: Observations,
}

/// The sightings with the checks made over them. The path of `q` plays no part: each step is asked
/// about by its own.
pub open spec fn lives(steps: Seq<PlanStepView>, q: Question, seen: Seq<Sighting>) -> Seq<Live> {
    Seq::new(
        steps.len(),
        |i: int|
            Live {
                exists: seen[i].exists,
                size: seen[i].size,
                safe: judged(
                    steps[i].candidate_id,
                    steps_of(Question { path: steps[i].path, ..q }, seen[i].seen),
                ).safe,
            },
    )
}

/// Holds a plan against the hash it was asked for by and what was seen of its paths: every
/// check is made anew.
pub fn revalidate(
    plan: &Plan,
    requested_hash: &str,
    prof: &Profile,
    rules: &Vec<Rule>,
    home: &str,
    secret_stores: &Vec<String>,
    seen: &Vec<Sighting>,
    now: i64,
) -> (r: Result<(), Refusal>)
    requires
        seen@.len() == plan.steps@.len(),
    ensures
        ({
            let steps = plan_step_views(plan.steps@);
            let q = Question {
                path: home@,
                recorded: None,
                prof: prof@,
                rules: rule_views(rules@),
                home: home@,
                secret_stores: views(secret_stores@),
                now,
            };
            refusal_of(r) == plan_objection(
                steps,
                requested_hash@,
                sha256_text(canonical(actions(steps))),
                lives(steps, q, seen@),
            )
        }),
{
    let ghost steps = plan_step_views(plan.steps@);
    let ghost q = Question {
        path: home@,
        recorded: None,
        prof: prof@,
        rules: rule_views(rules@),
        home: home@,
        secret_stores: views(secret_stores@),
        now,
    };
    let mut live: Vec<Live> = Vec::new();
    let mut i: usize = 0;
    while i < plan.steps.len()
        invariant
            i <= plan.steps@.len(),
            seen@.len() == plan.steps@.len(),
            steps == plan_step_views(plan.steps@),
            q == (Question {
                path: home@,
                recorded: None,
                prof: prof@,
                rules: rule_views(rules@),
                home: home@,
                secret_stores: views(secret_stores@),
                now,
            }),
            live@.len() == i,
            forall|j: int| 0 <= j < i ==> #[trigger] live@[j] == lives(steps, q, seen@)[j],
        decreases plan.steps.len() - i,
    {
        let step: &PlanStep = &plan.steps[i];
        assert(steps[i as int] == step@);
        let s: &Sighting = &seen[i];
        let check: CheckResult = pressure_test(
            step.candidate_id.as_str(),
            step.path.as_str(),
            None,
            prof,
            rules,
            home,
            secret_stores,
            &s.seen,
            now,
        );
        assert(check@.safe == check.safe);
        live.push(Live { exists: s.exists, size: s.size, safe: check.safe });
        i += 1;
    }
    assert(live@ =~= lives(steps, q, seen@));
    let actual: String = compute_plan_hash(&plan.steps);
    revalidate_live(plan, requested_hash, actual.as_str(), &live)
}

/// The free space that an applied plan works towards.
pub open spec fn goal_of(free: u64, need: u64) -> u64 {
    if free + need <= u64::MAX {
        (free + need) as u64
    } else {
        u64::MAX
    }
}

pub fn apply_goal(free: u64, need: u64) -> (r: u64)
    ensures
        r == goal_of(free, need),
{
    if free <= u64::MAX - need {
        free + need
    } else {
        u64::MAX
    }
}

proof fn lemma_objections(steps: Seq<PlanStepView>, live: Seq<Live>, k: int)
    requires
        0 <= k <= steps.len(),
    ensures
        first_objection(steps, live, k) is None <==> forall|i: int|
            k <= i < steps.len() ==> objection(#[trigger] steps[i], live[i]) is None,
    decreases steps.len() - k,
{
    if k < steps.len() {
        lemma_objections(steps, live, k + 1);
        if objection(steps[k], live[k]) is None {
            assert forall|i: int|
                k <= i < steps.len() && first_objection(
                    steps,
                    live,
                    k + 1,
                ) is None implies objection(#[trigger] steps[i], live[i]) is None by {}
        }
    }
}

/// A plan is applied as a whole or not at all: only where its hash is the one asked for, and
/// every path is still there, of its size and safe.
pub proof fn applied_only_as_a_whole(
    steps: Seq<PlanStepView>,
    requested: Seq<char>,
    actual: Seq<char>,
    live: Seq<Live>,
)
    ensures
        plan_objection(steps, requested, actual, live) is None <==> (actual == requested && forall|
            i: int,
        |
            0 <= i < steps.len() ==> (#[trigger] live[i]).exists && !drifted(
                steps[i].size_bytes,
                live[i].size,
            ) && live[i].safe),
{
    lemma_objections(steps, live, 0);
    if actual == requested {
        if first_objection(steps, live, 0) is None {
            assert forall|i: int| 0 <= i < steps.len() implies (#[trigger] live[i]).exists
                && !drifted(steps[i].size_bytes, live[i].size) && live[i].safe by {
                assert(objection(steps[i], live[i]) is None);
            }
        } else {
            let i = choose|i: int|
                0 <= i < steps.len() && objection(#[trigger] steps[i], live[i]) is Some;
            assert(!(live[i].exists && !drifted(steps[i].size_bytes, live[i].size)
                && live[i].safe));
        }
    }
}

} // verus!
