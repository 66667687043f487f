//! What the contracts read of a value is what it holds.

use crate::acute::{task_of, AcuteRun};
use crate::airlock::given;
use crate::apply::{refusal_of, Refusal, RefusalView};
use crate::check::{CheckRow, CheckRowView};
use crate::classify::{ClassifyStep, ClassifyStepView};
use crate::detect::survey_of;
use crate::doctor::{check_views, Plan, PlanStep};
use crate::drill::{hunt_views, HuntCandidate};
use crate::execute::{job_of, EventView, ExecuteEvent, Execution};
use crate::grant::Grant;
use crate::guard::{GuardEvent, GuardEventView, GuardRun};
use crate::history::{receipt_views, Entry, Reversal, ReversalView};
use crate::model::{
    candidate_views, entry_views, rule_views, Candidate, CheckResult, CheckStep,
    ConsequenceContract, Consequences, Metrics, Profile, Rule, ScanResult, ScannedEntry,
};
use crate::order::indices;
use crate::reclaim::{ReclaimAction, ReclaimRun, ReclaimStep};
use crate::report::{total_views, CategoryTotal};
use crate::scan::{summary_views, CategoryBytes};
use crate::selfcheck::{criterion_views, named_views, Criterion, Named};
use crate::store::{held_views, Held};
use crate::stow::{advisor_views, AdvisorRow, StowStep, StowStepView};
use crate::watch::AutoReclaim;
use crate::wizard::{choice_views, DomainChoice};
use crate::text::{opt_view, views};
use vstd::prelude::*;

verus! {

/// An optional text reads as the text, where there is one, and a list of texts as each in its place.
pub proof fn texts_read_as_they_are(o: Option<String>, v: Seq<String>, i: int)
    ensures
        o is Some ==> opt_view(o) == Some(o->0@),
        o is None ==> opt_view(o) is None,
        views(v).len() == v.len(),
        0 <= i < v.len() ==> views(v)[i] == v[i]@,
{
}

/// Consequences, and the contract made of them, read as they are.
pub proof fn consequences_read_as_they_are(c: Consequences, k: ConsequenceContract)
    ensures
        c@.recovery == c.recovery@,
        c@.rebuild_seconds == c.rebuild_seconds,
        c@.impact == c.impact@,
        c@.recovery_cmd == opt_view(c.recovery_cmd),
        k@.recovery_class == k.recovery_class@,
        k@.recovery_cost_seconds == k.recovery_cost_seconds,
        k@.impact == k.impact@,
        k@.recovery_cmd == opt_view(k.recovery_cmd),
        k@.reference_url == opt_view(k.reference_url),
{
}

/// A rule reads as it is.
pub proof fn rules_read_as_they_are(r: Rule)
    ensures
        r@.id == r.id@,
        r@.category == r.category@,
        r@.path_pattern == r.path_pattern@,
        r@.domain == opt_view(r.domain),
        r@.base_confidence == r.base_confidence,
        r@.reason == r.reason@,
        r@.exclude_if_recent_access_days == r.exclude_if_recent_access_days,
        r@.exclude_if_recent_modified_days == r.exclude_if_recent_modified_days,
        r@.reference_url == opt_view(r.reference_url),
        r.consequences is None ==> r@.consequences is None,
        r.consequences is Some ==> r@.consequences == Some(r.consequences->0@),
{
}

/// An entry of a scan reads as it is.
pub proof fn entries_read_as_they_are(e: ScannedEntry)
    ensures
        e@.path == e.path@,
        e@.size_bytes == e.size_bytes,
        e@.category == e.category,
        e@.modified == e.modified,
        e@.accessed == e.accessed,
{
}

/// A candidate reads as it is.
pub proof fn candidates_read_as_they_are(c: Candidate)
    ensures
        c@.id == c.id@,
        c@.rule_id == c.rule_id@,
        c@.path == c.path@,
        c@.size_bytes == c.size_bytes,
        c@.category == c.category,
        c@.confidence == c.confidence,
        c@.reason == c.reason@,
        c@.domain == opt_view(c.domain),
        c@.modified == c.modified,
        c@.accessed == c.accessed,
        c@.metrics == c.metrics,
        c@.reference_url == opt_view(c.reference_url),
        c.consequences is None ==> c@.consequences is None,
        c.consequences is Some ==> c@.consequences == Some(c.consequences->0@),
        c.consequence_contract is None ==> c@.consequence_contract is None,
        c.consequence_contract is Some ==> c@.consequence_contract == Some(
            c.consequence_contract->0@,
        ),
{
}

/// A check reads as it is, step by step.
pub proof fn checks_read_as_they_are(r: CheckResult, s: CheckStep, i: int)
    ensures
        s@.name == s.name@,
        s@.passed == s.passed,
        s@.note == s.note@,
        r@.candidate_id == r.candidate_id@,
        r@.safe == r.safe,
        r@.confidence == r.confidence,
        r@.steps.len() == r.steps@.len(),
        0 <= i < r.steps@.len() ==> r@.steps[i] == r.steps@[i]@,
        r@.metrics == r.metrics,
        r@.reference_url == opt_view(r.reference_url),
        r.consequences is Some ==> r@.consequences == Some(r.consequences->0@),
        r.consequence_contract is Some ==> r@.consequence_contract == Some(
            r.consequence_contract->0@,
        ),
{
}

/// A profile reads as it is.
pub proof fn profiles_read_as_they_are(p: Profile, i: int)
    ensures
        p@.domains.len() == p.domains@.len(),
        0 <= i < p.domains@.len() ==> p@.domains[i] == (p.domains@[i].name@, p.domains@[i].active),
        p@.never_touch == views(p.paths.never_touch@),
        p@.never_suggest == views(p.paths.never_suggest@),
        p@.airlock_retention_days == p.preferences.airlock_retention_days,
        p@.min_candidate_bytes == p.preferences.min_candidate_bytes,
        p@.pressure_threshold_bytes == p.preferences.pressure_threshold_bytes,
        p@.confirm_before_airlock == p.preferences.confirm_before_airlock,
        p@.watch_autoreclaim == p.preferences.watch_autoreclaim,
{
}

/// A receipt and an entry that is held aside read as they are.
pub proof fn records_read_as_they_are(e: Entry, h: Held)
    ensures
        e@.ts == e.ts,
        e@.command == e.command,
        e@.candidate_id == opt_view(e.candidate_id),
        e@.rule_id == opt_view(e.rule_id),
        e@.path == e.path@,
        e@.size_bytes == e.size_bytes,
        e@.df_before == e.df_before,
        e@.df_after == e.df_after,
        e@.actually_freed == e.actually_freed,
        e@.reversible == e.reversible,
        e@.undo_cmd == opt_view(e.undo_cmd),
        e@.rule_confidence == e.rule_confidence,
        e@.context.len() == e.context@.len(),
        h@.id == h.id@,
        h@.candidate_id == h.candidate_id@,
        h@.original_path == h.original_path@,
        h@.stored_path == h.stored_path@,
        h@.size_bytes == h.size_bytes,
        h@.stored_at == h.stored_at,
        h@.auto_purge_at == h.auto_purge_at,
{
}

/// A plan's step reads as it is.
pub proof fn steps_read_as_they_are(s: PlanStep, p: Plan, i: int)
    ensures
        s@.candidate_id == s.candidate_id@,
        s@.rule_id == s.rule_id@,
        s@.path == s.path@,
        s@.size_bytes == s.size_bytes,
        s@.confidence == s.confidence,
        s@.mode == s.mode@,
        s@.reversible == s.reversible,
        s@.pressure == s.pressure@,
        s.consequence_contract is Some ==> s@.consequence_contract == Some(
            s.consequence_contract->0@,
        ),
        s.consequence_contract is None ==> s@.consequence_contract is None,
        0 <= i < p.steps@.len() ==> crate::doctor::plan_step_views(p.steps@)[i] == p.steps@[i]@,
{
}

/// Lists read as their elements, each in its place.
pub proof fn lists_read_as_their_elements(
    c: Seq<Candidate>,
    r: Seq<Rule>,
    e: Seq<ScannedEntry>,
    h: Seq<Held>,
    l: Seq<Entry>,
    k: Seq<CheckResult>,
    n: Seq<usize>,
    i: int,
)
    ensures
        candidate_views(c).len() == c.len(),
        0 <= i < c.len() ==> candidate_views(c)[i] == c[i]@,
        rule_views(r).len() == r.len(),
        0 <= i < r.len() ==> rule_views(r)[i] == r[i]@,
        entry_views(e).len() == e.len(),
        0 <= i < e.len() ==> entry_views(e)[i] == e[i]@,
        held_views(h).len() == h.len(),
        0 <= i < h.len() ==> held_views(h)[i] == h[i]@,
        receipt_views(l).len() == l.len(),
        0 <= i < l.len() ==> receipt_views(l)[i] == l[i]@,
        check_views(k).len() == k.len(),
        0 <= i < k.len() ==> check_views(k)[i] == k[i]@,
        indices(n).len() == n.len(),
        0 <= i < n.len() ==> indices(n)[i] == n[i],
{
}

/// Rows that are shown read as they are, each in its place.
pub proof fn rows_read_as_they_are(
    h: Seq<HuntCandidate>,
    a: Seq<AdvisorRow>,
    t: Seq<CategoryTotal>,
    b: Seq<CategoryBytes>,
    k: Seq<Criterion>,
    n: Seq<Named>,
    i: int,
)
    ensures
        hunt_views(h).len() == h.len(),
        0 <= i < h.len() ==> {
            let (v, x) = (hunt_views(h)[i], h[i]);
            v.path == x.path@ && v.unruled == x.unruled_bytes && v.total == x.total_bytes && v.depth
                == x.depth
        },
        advisor_views(a).len() == a.len(),
        0 <= i < a.len() ==> {
            let (v, x) = (advisor_views(a)[i], a[i]);
            v.path == x.path@ && v.provider == x.provider && v.mechanism == x.mechanism && v.bytes
                == x.bytes
        },
        total_views(t).len() == t.len(),
        0 <= i < t.len() ==> total_views(t)[i] == (t[i].category, t[i].count as nat, t[i].bytes as nat),
        summary_views(b).len() == b.len(),
        0 <= i < b.len() ==> summary_views(b)[i] == (b[i].category, b[i].bytes as nat),
        criterion_views(k).len() == k.len(),
        0 <= i < k.len() ==> {
            let (v, x) = (criterion_views(k)[i], k[i]);
            v.criterion == x.criterion@ && v.pass == x.pass && v.detail == x.detail@
        },
        named_views(n).len() == n.len(),
        0 <= i < n.len() ==> named_views(n)[i] == (n[i].name@, n[i].text@),
{
}

/// A step of a run reads as what it is: what is to be done, and to which path.
pub proof fn next_steps_read_as_they_are(
    r: Refusal,
    c: ClassifyStep,
    s: StowStep,
    v: Reversal,
    w: CheckRow,
)
    ensures
        r matches Refusal::HashMismatch { expected, actual } ==> r@ == (RefusalView::HashMismatch {
            expected: expected@,
            actual: actual@,
        }),
        r matches Refusal::Missing { path } ==> r@ == (RefusalView::Missing { path: path@ }),
        r matches Refusal::SizeDrift { path, planned, found } ==> r@ == (RefusalView::SizeDrift {
            path: path@,
            planned,
            found,
        }),
        r matches Refusal::Unsafe { path, candidate_id } ==> r@ == (RefusalView::Unsafe {
            path: path@,
            candidate_id: candidate_id@,
        }),
        refusal_of(Err(r)) == Some(r@),
        refusal_of(Ok(())) is None,
        c@ is Table <==> c is Table,
        c@ is Suggest <==> c is Suggest,
        c matches ClassifyStep::NotFound(p) ==> c@ == ClassifyStepView::NotFound(p@),
        c matches ClassifyStep::Repack(p) ==> c@ == ClassifyStepView::Repack(p@),
        c matches ClassifyStep::Reclaim(p) ==> c@ == ClassifyStepView::Reclaim(p@),
        c matches ClassifyStep::OfferStow(p) ==> c@ == ClassifyStepView::OfferStow(p@),
        c matches ClassifyStep::Leave(p) ==> c@ == ClassifyStepView::Leave(p@),
        s@ is Advisor <==> s is Advisor,
        s matches StowStep::NotFound(p) ==> s@ == StowStepView::NotFound(p@),
        s matches StowStep::AlreadyOffloaded(p) ==> s@ == StowStepView::AlreadyOffloaded(p@),
        s matches StowStep::Suggest(p, a) ==> s@ == StowStepView::Suggest(p@, views(a@)),
        s matches StowStep::Offload(p, a) ==> s@ == StowStepView::Offload(p@, views(a@)),
        s matches StowStep::AdviseFinder(p) ==> s@ == StowStepView::AdviseFinder(p@),
        s matches StowStep::AdviseFragileEvict(p) ==> s@ == StowStepView::AdviseFragileEvict(p@),
        s matches StowStep::NotApplicable(p) ==> s@ == StowStepView::NotApplicable(p@),
        v matches Reversal::Restore(id) ==> v@ == ReversalView::Restore(id@),
        v matches Reversal::Run(argv) ==> v@ == ReversalView::Run(views(argv@)),
        v matches Reversal::Open(path) ==> v@ == ReversalView::Open(path@),
        w@ is Safe <==> w is Safe,
        w@ is Unsafe <==> w is Unsafe,
        w@ is Next <==> w is Next,
        w matches CheckRow::Step { passed, name, note } ==> w@ == (CheckRowView::Step {
            passed,
            name: name@,
            note: note@,
        }),
{
}

/// The state of a run reads as it is, with what happened to it and what is to be done next.
pub proof fn runs_read_as_they_are(
    a: AcuteRun,
    x: Execution,
    g: GuardRun,
    r: ReclaimRun,
    u: AutoReclaim,
    e: ExecuteEvent,
    f: GuardEvent,
)
    ensures
        a@.phase == a.phase && a@.position == a.position && a@.freed_total == a.freed_total
            && a@.grant_spent == a.grant_spent && a@.deleted == indices(a.deleted@),
        x@.phase == x.phase && x@.position == x.position && x@.freed_bytes == x.freed_bytes
            && x@.grant_spent == x.grant_spent && x@.items.len() == x.items@.len(),
        g@.phase == g.phase && g@.first_exit == g.first_exit && g@.enospc_detected
            == g.enospc_detected && g@.freed_bytes == g.freed_bytes && g@.second_exit
            == g.second_exit && g@.re_execed == g.re_execed && g@.error == opt_view(g.error),
        r@.picks == indices(r.picks@) && r@.survivors == indices(r.survivors@) && r@.blocked
            == indices(r.blocked@) && r@.kept == indices(r.kept@) && r@.acted == indices(r.acted@)
            && r@.low == indices(r.low@) && r@.deleted == indices(r.deleted@) && r@.at == r.at,
        r@.next is AskConfirm <==> r.next is AskConfirm,
        r.next matches ReclaimAction::Check(i) ==> r@.next == ReclaimStep::Check(i as int),
        r.next matches ReclaimAction::AskTypedId(i) ==> r@.next == ReclaimStep::AskTypedId(i as int),
        r.next matches ReclaimAction::Delete(i) ==> r@.next == ReclaimStep::Delete(i as int),
        r.next matches ReclaimAction::Finish(end) ==> r@.next == ReclaimStep::Finish(end),
        u@.picks == indices(u.picks@) && u@.at == u.at && u@.cleared == u.cleared && u@.deleted
            == indices(u.deleted@) && u@.bytes_freed == u.bytes_freed,
        e matches ExecuteEvent::Done(undo) ==> e@ == EventView::Done(opt_view(undo)),
        e matches ExecuteEvent::Free(free) ==> e@ == EventView::Free(free),
        e is Failed <==> e@ is Failed,
        f matches GuardEvent::Ran(o) ==> f@ == GuardEventView::Ran(o),
        f matches GuardEvent::Freed(b) ==> f@ == GuardEventView::Freed(b),
        f matches GuardEvent::Failed(m) ==> f@ == GuardEventView::Failed(m@),
{
}

/// What a run is given is what it works on.
pub proof fn runs_work_on_what_they_are_given(
    candidates: Seq<Candidate>,
    plan: Plan,
    free: u64,
    target: u64,
    grant: Option<&Grant>,
    home: Seq<char>,
    scan: ScanResult,
    prof: Profile,
    now: i64,
    measured: Seq<Option<Metrics>>,
    shielded: Seq<bool>,
)
    ensures
        ({
            let t = task_of(candidates, free, target, grant, home);
            &&& t.candidates == candidate_views(candidates)
            &&& t.free == free && t.target == target && t.home == home
            &&& t.grant is Some <==> grant is Some
            &&& grant is Some ==> t.grant == Some(*grant->0)
        }),
        ({
            let j = job_of(plan, grant, home, free, target);
            &&& j.steps == crate::doctor::plan_step_views(plan.steps@)
            &&& j.df_before == free && j.need_bytes == target && j.home == home
            &&& j.grant is Some <==> grant is Some
            &&& grant is Some ==> j.grant == Some(*grant->0)
        }),
        given(grant) is Some <==> grant is Some,
        grant is Some ==> given(grant) == Some(*grant->0),
        ({
            let s = survey_of(scan, prof, now, measured, shielded);
            s.entries == entry_views(scan.entries@) && s.prof == prof@ && s.now == now && s.measured
                == measured && s.shielded == shielded
        }),
{
}

/// A kind of work that can be chosen reads as its key, its label and its hint.
pub proof fn choices_read_as_they_are(c: DomainChoice, v: Seq<DomainChoice>, i: int)
    ensures
        c@.key == c.key@ && c@.label == c.label@ && c@.hint == c.hint@,
        choice_views(v).len() == v.len(),
        0 <= i < v.len() ==> choice_views(v)[i] == v[i]@,
{
}

} // verus!
