//! What holds of a recovery: how much it frees, how, and of what.

use crate::acute::{
    acute, acute_goal, acute_rank, acute_start, acute_step, acute_work, consent_needed, min_free_of,
    target_of, AcuteEvent, AcutePhase, AcuteState, AcuteTask,
};
use crate::acute_laws::{acute_after, only_zero_loss_classes_are_removed};
use crate::apply::{
    first_objection, goal_of, lives, objection, on_disk, plan_objection, Live, RefusalView,
    Sighting,
};
use crate::check::{judged, steps_of, Observations, Question};
use crate::check_laws::{presence_and_quiet_pass, safe_needs_every_step};
use crate::doctor::{
    bytes_at, checked, chosen, cleared, contract_consequences, grant_missing, lemma_cleared,
    lemma_plan_order, lemma_reach, need_of, needs_warning, plan_key, plan_keys, plan_order, planned,
    reach, size_in, size_of_text, stage_of, AcuteResult, Mode, PlanStepView, Stage,
};
use crate::execute::{
    execute_start, execute_step, settle, step_consequences, EventView, ExecuteOutcome,
    ExecutionView, ItemView, Job, Phase,
};
use crate::grant::{ruling, GrantDecision};
use crate::guard::{
    blank_runs, guard_exit, guard_need, guard_next, guard_start, parse_complaint, recovery_of,
    spawn_complaint, succeeded, tells_of_full_disk, GuardEventView, GuardPhase, GuardView,
};
use crate::model::{CandidateView, CheckView, Context, ContractView};
use crate::number_laws::sizes_are_whole_units;
use crate::plan::{little_endian, record, records, Action};
use crate::order::{before, lemma_pair_less, lemma_stable_order, stable_order};
use crate::size_laws::sizes_ignore_case;
use crate::text::{ascii_lower_all, decimal, lowered, occurs, trimmed};
use vstd::prelude::*;
use vstd::utf8::encode_utf8;

verus! {

// ---------------------------------------------------------------------------
// The run
// ---------------------------------------------------------------------------
/// A run that goes on to recover deletes at once exactly where the free space it starts from is below
/// the pressure threshold, and otherwise moves aside. What it is to free makes up what is missing of
/// the need.
pub proof fn pressure_decides_the_mode(
    acute: Option<AcuteResult>,
    free: u64,
    need: u64,
    need_given: bool,
    threshold: u64,
)
    ensures
        stage_of(acute, free, need, need_given, threshold) matches Stage::Recover {
            free: f,
            bytes,
            mode,
        } ==> {
            &&& mode == Mode::Immediate <==> f < threshold
            &&& mode == Mode::Airlock <==> f >= threshold
            &&& f + bytes == need
            &&& bytes > 0
        },
{
}

/// A run stops in danger exactly where the acute phase missed its target. It hands over exactly where
/// the phase met it and nothing more was asked for. Else it is done where the need is met, and
/// recovers where it is not. The free space it speaks of is what the acute phase left, where there
/// was one.
pub proof fn stages_follow_the_disk(
    acute: Option<AcuteResult>,
    free: u64,
    need: u64,
    need_given: bool,
    threshold: u64,
)
    ensures
        ({
            let s = stage_of(acute, free, need, need_given, threshold);
            let now = if acute is Some {
                acute->0.free_after
            } else {
                free
            };
            let missed = acute is Some && !acute->0.target_reached;
            let over = acute is Some && acute->0.target_reached && !need_given;
            &&& s is Unmet <==> missed
            &&& s is Triage <==> over
            &&& s is Sufficient <==> !missed && !over && now >= need
            &&& s is Recover <==> !missed && !over && now < need
            &&& s matches Stage::Unmet { free: f, shortfall } ==> f == now && (now >= need
                ==> shortfall == 0) && (now < need ==> now + shortfall == need)
            &&& s matches Stage::Triage { free: f } ==> f == now
            &&& s matches Stage::Sufficient { free: f } ==> f == now
            &&& s matches Stage::Recover { free: f, .. } ==> f == now
        }),
{
}

/// What was asked for is needed; where nothing readable was, the pressure threshold and a gibibyte.
pub proof fn need_is_what_was_asked_for(asked: Option<Seq<char>>, threshold: u64)
    ensures
        asked is None || size_of_text(asked->0) is None ==> need_of(asked, threshold) == threshold
            + 1_073_741_824,
        asked is Some && size_of_text(asked->0) is Some ==> need_of(asked, threshold)
            == size_of_text(asked->0)->0,
{
}

/// Only the name of the immediate mode deletes for good; every other name is the reversible one.
pub proof fn only_its_name_deletes(s: Seq<char>)
    ensures
        Mode::named(s) == Mode::Immediate <==> s == "immediate"@,
        Mode::Immediate.name() == "immediate"@,
        Mode::Airlock.name() == "airlock"@,
{
}

/// A deletion below 0.85 is marked, and nothing else is; a run that acts where nobody is there needs a
/// grant.
pub proof fn doubtful_runs_are_told(
    mode: Mode,
    confidence: u32,
    ctx: Context,
    actuation: bool,
    has_grant: bool,
)
    ensures
        needs_warning(mode, confidence) <==> mode == Mode::Immediate && confidence < 850_000,
        grant_missing(ctx, actuation, has_grant) <==> actuation && (ctx.json || ctx.yes)
            && !has_grant,
        consent_needed(ctx, actuation, has_grant) <==> !ctx.json && !ctx.yes && !(actuation
            && has_grant),
{
}

// ---------------------------------------------------------------------------
// The plan
// ---------------------------------------------------------------------------
proof fn lemma_cleared_all(rs: Seq<CheckView>)
    ensures
        forall|i: int|
            0 <= i < rs.len() && (#[trigger] rs[i]).safe ==> cleared(rs).contains(i),
        cleared(rs).no_duplicates(),
    decreases rs.len(),
{
    if rs.len() > 0 {
        let d = rs.drop_last();
        lemma_cleared_all(d);
        lemma_cleared(d);
        let (a, b) = (cleared(d), cleared(rs));
        assert forall|i: int| 0 <= i < rs.len() && (#[trigger] rs[i]).safe implies b.contains(i) by {
            if i < d.len() {
                assert(d[i].safe);
                let k = a.index_of(i);
                assert(b[k] == i);
            } else {
                assert(b[b.len() - 1] == i);
            }
        }
    }
}

/// Every step of a plan stands for a candidate that passed its check: its path, id, size and
/// confidence are the candidate's, its mode is the plan's, and it can be undone exactly where it moves
/// aside.
pub proof fn steps_carry_their_candidate(
    cs: Seq<CandidateView>,
    rs: Seq<CheckView>,
    need: u64,
    mode: Mode,
    k: int,
)
    requires
        cs.len() == rs.len(),
        0 <= k < planned(cs, rs, need, mode).len(),
    ensures
        ({
            let s = planned(cs, rs, need, mode)[k];
            let i = chosen(cs, rs, need)[k];
            &&& 0 <= i < cs.len()
            &&& rs[i].safe
            &&& s.path == cs[i].path
            &&& s.candidate_id == cs[i].id
            &&& s.rule_id == cs[i].rule_id
            &&& s.size_bytes == cs[i].size_bytes
            &&& s.confidence == cs[i].confidence
            &&& s.consequence_contract == cs[i].consequence_contract
            &&& s.pressure == rs[i]
            &&& s.mode == "immediate"@ <==> mode == Mode::Immediate
            &&& s.mode == "airlock"@ <==> mode == Mode::Airlock
            &&& s.reversible <==> mode == Mode::Airlock
        }),
{
    lemma_plan_order(cs, rs);
    lemma_reach(cs, plan_order(cs, rs), need, 0);
    assert(chosen(cs, rs, need)[k] == plan_order(cs, rs)[k]);
    reveal_strlit("airlock");
    reveal_strlit("immediate");
    assert("airlock"@.len() != "immediate"@.len());
}

/// No plan takes a path that was in use when it was looked at, could not be read, or lies in a project
/// that is at work.
pub proof fn plan_takes_nothing_in_use(
    cs: Seq<CandidateView>,
    q: Question,
    seen: Seq<Observations>,
    need: u64,
    mode: Mode,
    k: int,
)
    requires
        cs.len() == seen.len(),
        0 <= k < planned(cs, checked(cs, q, seen), need, mode).len(),
    ensures
        ({
            let i = chosen(cs, checked(cs, q, seen), need)[k];
            &&& 0 <= i < cs.len()
            &&& planned(cs, checked(cs, q, seen), need, mode)[k].path == cs[i].path
            &&& seen[i].stat_error is None
            &&& seen[i].open_file_lines is Some ==> seen[i].open_file_lines->0 < 2
            &&& !seen[i].owner_running
            &&& !seen[i].recent_write
            &&& forall|s: int|
                0 <= s < 5 ==> (#[trigger] steps_of(
                    Question { path: cs[i].path, ..q },
                    seen[i],
                )[s]).passed
        }),
{
    let rs = checked(cs, q, seen);
    steps_carry_their_candidate(cs, rs, need, mode, k);
    let i = chosen(cs, rs, need)[k];
    let asked = Question { path: cs[i].path, ..q };
    assert(rs[i] == judged(cs[i].id, steps_of(asked, seen[i])));
    safe_needs_every_step(cs[i].id, asked, seen[i]);
    presence_and_quiet_pass(asked, seen[i]);
}

/// A plan takes no candidate twice. Where it leaves out a safe one, its need is met, and every step it
/// takes is surer than the one left out, or as sure and no smaller.
pub proof fn plan_leaves_out_only_what_it_can_spare(
    cs: Seq<CandidateView>,
    rs: Seq<CheckView>,
    need: u64,
    left: int,
    k: int,
)
    requires
        cs.len() == rs.len(),
        0 <= left < cs.len(),
        rs[left].safe,
        !chosen(cs, rs, need).contains(left),
        0 <= k < chosen(cs, rs, need).len(),
    ensures
        chosen(cs, rs, need).no_duplicates(),
        bytes_at(cs, chosen(cs, rs, need)) >= need,
        ({
            let (a, b) = (cs[chosen(cs, rs, need)[k]], cs[left]);
            a.confidence > b.confidence || (a.confidence == b.confidence && a.size_bytes
                >= b.size_bytes)
        }),
{
    let picks = cleared(rs);
    let keys = plan_keys(cs, picks);
    let o = stable_order(keys);
    let order = plan_order(cs, rs);
    lemma_cleared(rs);
    lemma_cleared_all(rs);
    lemma_stable_order(keys);
    lemma_plan_order(cs, rs);
    lemma_reach(cs, order, need, 0);
    let n = reach(cs, order, need, 0) as int;
    let t = chosen(cs, rs, need);
    assert forall|a: int, b: int| 0 <= a < b < t.len() implies t[a] != t[b] by {
        assert(t[a] == picks[o[a]] && t[b] == picks[o[b]]);
        assert(o[a] != o[b]);
    }
    let p = picks.index_of(left);
    assert(o.contains(p));
    let j = o.index_of(p);
    assert(order[j] == left);
    if j < n {
        assert(t[j] == left);
    }
    assert(t[k] == order[k] && order[k] == picks[o[k]]);
    assert(before(keys, o[k], o[j]));
    let (a, b) = (cs[picks[o[k]]], cs[picks[o[j]]]);
    lemma_pair_less(
        0xffff_ffff - a.confidence,
        0xffff_ffff_ffff_ffff - a.size_bytes,
        0xffff_ffff - b.confidence,
        0xffff_ffff_ffff_ffff - b.size_bytes,
    );
    assert(keys[o[k]] == plan_key(a) && keys[o[j]] == plan_key(b));
}

/// A plan that falls short of its need takes every safe candidate there is.
pub proof fn short_plan_takes_all_that_is_safe(
    cs: Seq<CandidateView>,
    rs: Seq<CheckView>,
    need: u64,
    i: int,
)
    requires
        cs.len() == rs.len(),
        bytes_at(cs, chosen(cs, rs, need)) < need,
        0 <= i < cs.len(),
        rs[i].safe,
    ensures
        chosen(cs, rs, need).contains(i),
{
    let picks = cleared(rs);
    let keys = plan_keys(cs, picks);
    let o = stable_order(keys);
    let order = plan_order(cs, rs);
    lemma_cleared_all(rs);
    lemma_stable_order(keys);
    lemma_plan_order(cs, rs);
    lemma_reach(cs, order, need, 0);
    let p = picks.index_of(i);
    assert(o.contains(p));
    let j = o.index_of(p);
    assert(order[j] == i);
    assert(chosen(cs, rs, need)[j] == i);
}

/// The bytes of a plan are those of its candidates, one after the other.
pub proof fn plan_bytes_add_up(cs: Seq<CandidateView>, picks: Seq<int>, i: int)
    ensures
        bytes_at(cs, Seq::empty()) == 0,
        bytes_at(cs, picks.push(i)) == bytes_at(cs, picks) + cs[i].size_bytes,
{
    assert(picks.push(i).drop_last() =~= picks);
}

// ---------------------------------------------------------------------------
// The acute phase
// ---------------------------------------------------------------------------
/// A disk is acute exactly where less than two gibibytes are free and they are a smaller share of the
/// volume than is asked for.
pub proof fn acute_below_the_share_and_the_floor(free: u64, total: u64, min_free: u64)
    ensures
        acute(free, total, min_free) <==> total > 0 && free < 2_147_483_648 && free * 1_000_000
            < min_free * total,
{
}

/// The share asked for is the one given, where it is above nothing, and else three hundredths; the
/// goal of the phase is that share of the volume, where the disk is acute.
pub proof fn acute_goal_is_the_share(
    flag: Option<i64>,
    df: Option<(u64, u64)>,
    min_free: u64,
)
    ensures
        flag is Some && flag->0 > 0 ==> min_free_of(flag) == flag->0,
        flag is None || flag->0 <= 0 ==> min_free_of(flag) == 30_000,
        df is None ==> acute_goal(df, min_free) is None,
        df matches Some((free, total)) ==> {
            &&& acute_goal(df, min_free) is Some <==> total > 0 && free < 2_147_483_648 && free
                * 1_000_000 < min_free * total
            &&& acute_goal(df, min_free) matches Some(t) ==> t == target_of(total, min_free) && t
                * 1_000_000 <= total * min_free && (t < u64::MAX ==> total * min_free < (t + 1)
                * 1_000_000)
        },
{
    if let Some((free, total)) = df {
        let x = total * min_free;
        assert(x >= 0) by (nonlinear_arith)
            requires
                x == total * min_free,
        ;
    }
}

proof fn lemma_filter_contains(v: Seq<CandidateView>, f: spec_fn(CandidateView) -> bool, c: CandidateView)
    ensures
        v.filter(f).contains(c) <==> v.contains(c) && f(c),
    decreases v.len(),
{
    reveal(Seq::filter);
    if v.len() > 0 {
        let d = v.drop_last();
        lemma_filter_contains(d, f, c);
        let (a, b) = (d.filter(f), v.filter(f));
        if b.contains(c) {
            let k = b.index_of(c);
            if k < a.len() {
                assert(a[k] == c);
                let j = d.index_of(c);
                assert(v[j] == c);
            } else {
                assert(v[v.len() - 1] == c);
            }
        }
        if v.contains(c) && f(c) {
            let j = v.index_of(c);
            if j < d.len() {
                assert(d[j] == c);
                let k = a.index_of(c);
                assert(b[k] == c);
            } else {
                assert(b[b.len() - 1] == c);
            }
        }
    }
}

/// The acute phase works on every candidate that costs nothing to lose, because it comes back by
/// itself, is fetched or is built again, and on no other.
pub proof fn acute_work_is_all_that_comes_back(v: Seq<CandidateView>, c: CandidateView)
    ensures
        acute_work(v).contains(c) <==> v.contains(c) && (c.recovery_class() == "auto"@
            || c.recovery_class() == "redownload"@ || c.recovery_class() == "rebuild"@),
        acute_rank("auto"@) < acute_rank("redownload"@) < acute_rank("rebuild"@),
{
    let f = |c: CandidateView| crate::acute::zero_loss(c.recovery_class());
    let w = v.filter(f);
    assert(crate::acute::harmless(v) =~= w);
    lemma_filter_contains(v, f, c);
    let keys = crate::acute::acute_keys(w);
    let o = stable_order(keys);
    lemma_stable_order(keys);
    if acute_work(v).contains(c) {
        let k = acute_work(v).index_of(c);
        assert(w[o[k]] == c);
    }
    if w.contains(c) {
        let p = w.index_of(c);
        assert(o.contains(p));
        let k = o.index_of(p);
        assert(acute_work(v)[k] == c);
    }
    reveal_strlit("auto");
    reveal_strlit("redownload");
    reveal_strlit("rebuild");
    assert("auto"@.len() == 4 && "redownload"@.len() == 10 && "rebuild"@.len() == 7);
}

/// The acute phase removes nothing but what comes back by itself, is fetched or is built again.
pub proof fn acute_removals_come_back(
    t: AcuteTask,
    ask: bool,
    events: Seq<AcuteEvent>,
    k: int,
)
    requires
        0 <= k < acute_after(t, ask, events).deleted.len(),
    ensures
        ({
            let class = t.candidates[acute_after(t, ask, events).deleted[k]].recovery_class();
            class == "auto"@ || class == "redownload"@ || class == "rebuild"@
        }),
{
    only_zero_loss_classes_are_removed(t, ask, events, k);
}

/// Where a person is asked, nothing is checked or removed until they agreed.
pub proof fn acute_phase_waits_for_consent(t: AcuteTask, events: Seq<AcuteEvent>)
    requires
        forall|k: int| 0 <= k < events.len() ==> #[trigger] events[k] != AcuteEvent::Consent(true),
    ensures
        acute_after(t, true, events).deleted.len() == 0,
        acute_after(t, true, events).phase == AcutePhase::Consent || acute_after(
            t,
            true,
            events,
        ).phase == AcutePhase::Finished,
    decreases events.len(),
{
    if events.len() > 0 {
        let d = events.drop_last();
        assert forall|k: int| 0 <= k < d.len() implies #[trigger] d[k] != AcuteEvent::Consent(
            true,
        ) by {
            assert(d[k] == events[k]);
        }
        acute_phase_waits_for_consent(t, d);
        assert(events.last() == events[events.len() - 1]);
    }
}

/// A candidate is checked exactly where it comes back and too little is free: by the reading, or by
/// what was free at first and what was removed since, whichever is less. Once enough is free the
/// phase is over.
pub proof fn acute_phase_stops_at_its_target(t: AcuteTask, s: AcuteState, reading: Option<u64>)
    requires
        s.phase == AcutePhase::Reading,
        0 <= s.position < t.candidates.len(),
    ensures
        ({
            let class = t.candidates[s.position].recovery_class();
            let comes_back = class == "auto"@ || class == "redownload"@ || class == "rebuild"@;
            let short = t.free + s.freed_total < t.target || (reading is Some && reading->0
                < t.target);
            let r = acute_step(t, s, AcuteEvent::Free(reading));
            &&& t.free + s.freed_total <= u64::MAX ==> (r.phase == AcutePhase::Checking <==> short
                && comes_back)
            &&& t.free + s.freed_total <= u64::MAX && !short ==> r.phase == AcutePhase::Finished
            &&& r.phase == AcutePhase::Checking ==> r.position == s.position
            &&& r.deleted == s.deleted
        }),
{
}

/// A candidate that passed its check is removed exactly where no grant has to speak or the one that
/// does allows it beside what it has allowed before; one that failed is passed over.
pub proof fn acute_removal_needs_check_and_grant(t: AcuteTask, s: AcuteState, safe: bool)
    requires
        s.phase == AcutePhase::Checking,
        0 <= s.position < t.candidates.len(),
    ensures
        ({
            let c = t.candidates[s.position];
            let r = acute_step(t, s, AcuteEvent::Checked(safe));
            &&& r.phase == AcutePhase::Removing <==> safe && (t.grant is Some ==> ruling(
                t.grant->0,
                c.consequences,
                c.confidence,
                c.size_bytes,
                c.path,
                s.grant_spent,
                t.home,
            ) == GrantDecision::Allow)
            &&& r.phase == AcutePhase::Removing ==> r.position == s.position
            &&& r.phase != AcutePhase::Removing ==> r.position == s.position + 1 && r.grant_spent
                == s.grant_spent
            &&& r.deleted == s.deleted
            &&& r.freed_total == s.freed_total
        }),
{
}

/// A removal that was done counts with its bytes, one that was not counts nothing, and the next
/// candidate follows either way.
pub proof fn acute_removals_are_counted(t: AcuteTask, s: AcuteState, done: bool)
    requires
        s.phase == AcutePhase::Removing,
        0 <= s.position < t.candidates.len(),
    ensures
        ({
            let r = acute_step(t, s, AcuteEvent::Removed(done));
            &&& r.position == s.position + 1
            &&& done ==> r.deleted == s.deleted.push(s.position)
            &&& !done ==> r.deleted == s.deleted && r.freed_total == s.freed_total
            &&& done && s.freed_total + t.candidates[s.position].size_bytes <= u64::MAX
                ==> r.freed_total == s.freed_total + t.candidates[s.position].size_bytes
        }),
{
}

// ---------------------------------------------------------------------------
// Carrying out a plan
// ---------------------------------------------------------------------------
/// A step that was done is recorded under its place with the command that brings it back and counts
/// with its bytes; one that failed leaves no trace. After a deletion the disk is read; after a move,
/// which frees nothing, it is not.
pub proof fn steps_are_recorded(job: Job, s: ExecutionView, undo: Option<Seq<char>>)
    requires
        s.phase == Phase::Acting,
        0 <= s.position < job.steps.len(),
    ensures
        ({
            let deletes = job.steps[s.position].mode == "immediate"@;
            let done = execute_step(job, s, EventView::Done(undo));
            let failed = execute_step(job, s, EventView::Failed);
            &&& done.freed_bytes == s.freed_bytes + job.steps[s.position].size_bytes
            &&& failed.freed_bytes == s.freed_bytes
            &&& deletes ==> done.phase == Phase::Reading && failed.phase == Phase::Reading
                && done.items == s.items.push(
                ItemView::Acted { step: s.position, undo_cmd: undo },
            ) && failed.items == s.items
            &&& !deletes ==> done.phase != Phase::Reading && failed.phase != Phase::Reading
            &&& done.items.len() > s.items.len() && done.items[s.items.len() as int]
                == (ItemView::Acted { step: s.position, undo_cmd: undo })
        }),
{
    let moved = ExecutionView {
        freed_bytes: s.freed_bytes + job.steps[s.position].size_bytes as nat,
        items: s.items.push(ItemView::Acted { step: s.position, undo_cmd: undo }),
        ..s
    };
    lemma_settle_keeps(job, moved, s.position + 1);
    lemma_settle_keeps(job, s, s.position + 1);
}

proof fn lemma_settle_keeps(job: Job, s: ExecutionView, position: int)
    requires
        0 <= position,
    ensures
        ({
            let r = settle(job, s, position);
            &&& r.freed_bytes == s.freed_bytes
            &&& r.phase != Phase::Reading
            &&& r.items.len() >= s.items.len()
            &&& forall|k: int| 0 <= k < s.items.len() ==> #[trigger] r.items[k] == s.items[k]
        }),
    decreases job.steps.len() - position,
{
    if position < job.steps.len() {
        match crate::execute::step_ruling(job, position, s.grant_spent) {
            GrantDecision::Deny(reason) => {
                let next = ExecutionView {
                    items: s.items.push(ItemView::Denied { step: position, reason }),
                    ..s
                };
                lemma_settle_keeps(job, next, position + 1);
                let r = settle(job, s, position);
                assert forall|k: int| 0 <= k < s.items.len() implies #[trigger] r.items[k]
                    == s.items[k] by {
                    assert(next.items[k] == s.items[k]);
                }
            },
            GrantDecision::Allow => {},
        }
    }
}

/// After a deletion the run is over exactly where the disk shows what is needed, by the reading or,
/// without one, by what was free at first.
pub proof fn execution_ends_at_the_need(job: Job, s: ExecutionView, reading: Option<u64>)
    requires
        s.phase == Phase::Reading,
        0 <= s.position < job.steps.len(),
    ensures
        ({
            let free = if reading is Some {
                reading->0
            } else {
                job.df_before
            };
            let r = execute_step(job, s, EventView::Free(reading));
            &&& free >= job.need_bytes ==> r.phase == Phase::Finished && r.items == s.items
            &&& free < job.need_bytes ==> r == settle(job, s, s.position + 1)
            &&& r.freed_bytes == s.freed_bytes
        }),
{
    lemma_settle_keeps(job, s, s.position + 1);
}

/// A step is taken up exactly where no grant has to speak or the one that does allows it, judged by
/// what the step's own contract says of its loss; it is then charged to the grant. A step that the
/// grant denies is recorded with the reason and passed over.
pub proof fn steps_are_taken_up_by_the_grant(job: Job, s: ExecutionView, position: int)
    requires
        0 <= position < job.steps.len(),
    ensures
        ({
            let p = job.steps[position];
            let says = ruling(
                job.grant->0,
                step_consequences(p),
                p.confidence,
                p.size_bytes,
                p.path,
                s.grant_spent,
                job.home,
            );
            let r = settle(job, s, position);
            &&& job.grant is None || says == GrantDecision::Allow ==> r.phase == Phase::Acting
                && r.position == position && r.items == s.items
            &&& job.grant is None ==> r.grant_spent == s.grant_spent
            &&& job.grant is Some && says == GrantDecision::Allow && s.grant_spent + p.size_bytes
                <= u64::MAX ==> r.grant_spent == s.grant_spent + p.size_bytes
            &&& job.grant is Some && says is Deny ==> r.items.len() > s.items.len()
                && r.items[s.items.len() as int] == (ItemView::Denied {
                step: position,
                reason: says->Deny_0,
            })
            &&& step_consequences(p) is Some <==> p.consequence_contract is Some
            &&& step_consequences(p) is Some ==> step_consequences(p)->0.recovery
                == p.consequence_contract->0.recovery_class
        }),
{
    match crate::execute::step_ruling(job, position, s.grant_spent) {
        GrantDecision::Deny(reason) => {
            let next = ExecutionView {
                items: s.items.push(ItemView::Denied { step: position, reason }),
                ..s
            };
            lemma_settle_keeps(job, next, position + 1);
        },
        GrantDecision::Allow => {},
    }
}

// ---------------------------------------------------------------------------
// Applying a saved plan
// ---------------------------------------------------------------------------
/// A saved plan is applied exactly where its hash is the one asked for and every target is still
/// there, has changed by no more than a tenth of its planned size, and is found safe once more.
pub proof fn applied_exactly_where_nothing_changed(
    steps: Seq<PlanStepView>,
    requested: Seq<char>,
    actual: Seq<char>,
    live: Seq<Live>,
)
    ensures
        plan_objection(steps, requested, actual, live) is None <==> (actual == requested && forall|
            i: int,
        |
            0 <= i < steps.len() ==> (#[trigger] live[i]).exists && live[i].safe && 10 * (
            live[i].size - steps[i].size_bytes) <= steps[i].size_bytes && 10 * (
            steps[i].size_bytes - live[i].size) <= steps[i].size_bytes),
{
    crate::apply::applied_only_as_a_whole(steps, requested, actual, live);
    assert forall|i: int| 0 <= i < steps.len() implies (!crate::apply::drifted(
        steps[i].size_bytes,
        (#[trigger] live[i]).size,
    ) <==> 10 * (live[i].size - steps[i].size_bytes) <= steps[i].size_bytes && 10 * (
    steps[i].size_bytes - live[i].size) <= steps[i].size_bytes) by {}
}

/// What objects to a step is told by what is wrong with it: a target that is gone, one that changed
/// by more than a tenth, or one that is no longer safe, in this order.
pub proof fn objections_name_what_changed(step: PlanStepView, live: Live)
    ensures
        ({
            let d = if live.size >= step.size_bytes {
                live.size - step.size_bytes
            } else {
                step.size_bytes - live.size
            };
            &&& !live.exists ==> objection(step, live) == Some(
                RefusalView::Missing { path: step.path },
            )
            &&& live.exists && 10 * d > step.size_bytes ==> objection(step, live) == Some(
                RefusalView::SizeDrift {
                    path: step.path,
                    planned: step.size_bytes,
                    found: live.size,
                },
            )
            &&& live.exists && 10 * d <= step.size_bytes && !live.safe ==> objection(step, live)
                == Some(
                RefusalView::Unsafe { path: step.path, candidate_id: step.candidate_id },
            )
            &&& live.exists && 10 * d <= step.size_bytes && live.safe ==> objection(step, live)
                is None
        }),
{
}

/// The refusal of a plan is that of its first step that something stands against, unless the hash
/// already differs.
pub proof fn first_objection_refuses(
    steps: Seq<PlanStepView>,
    requested: Seq<char>,
    actual: Seq<char>,
    live: Seq<Live>,
    k: int,
)
    requires
        0 <= k < steps.len(),
        objection(steps[k], live[k]) is Some,
        forall|j: int|
            #![trigger steps[j], live[j]]
            0 <= j < k ==> objection(steps[j], live[j]) is None,
    ensures
        actual != requested ==> plan_objection(steps, requested, actual, live) == Some(
            RefusalView::HashMismatch { expected: requested, actual },
        ),
        actual == requested ==> plan_objection(steps, requested, actual, live) == objection(
            steps[k],
            live[k],
        ),
{
    lemma_first_objection(steps, live, 0, k);
}

proof fn lemma_first_objection(steps: Seq<PlanStepView>, live: Seq<Live>, from: int, k: int)
    requires
        0 <= from <= k < steps.len(),
        objection(steps[k], live[k]) is Some,
        forall|j: int|
            #![trigger steps[j], live[j]]
            0 <= j < k ==> objection(steps[j], live[j]) is None,
    ensures
        first_objection(steps, live, from) == objection(steps[k], live[k]),
    decreases k - from,
{
    if from < k {
        assert(objection(steps[from], live[from]) is None);
        lemma_first_objection(steps, live, from + 1, k);
    }
}

/// A plan that finds an unsafe target ends with 2, and every other refusal with 1.
pub proof fn refusals_exit(r: RefusalView)
    ensures
        r.code() == 2 <==> r is Unsafe,
        r.code() == 1 <==> !(r is Unsafe),
{
}

/// A saved plan is held against the targets as they are now: each is looked at under its own path, and
/// one that is in use is not safe.
pub proof fn targets_are_looked_at_again(
    steps: Seq<PlanStepView>,
    q: Question,
    seen: Seq<Sighting>,
    i: int,
)
    requires
        steps.len() == seen.len(),
        0 <= i < steps.len(),
    ensures
        lives(steps, q, seen).len() == steps.len(),
        lives(steps, q, seen)[i].exists == seen[i].exists,
        lives(steps, q, seen)[i].size == seen[i].size,
        lives(steps, q, seen)[i].safe <==> forall|s: int|
            0 <= s < 5 ==> (#[trigger] steps_of(
                Question { path: steps[i].path, ..q },
                seen[i].seen,
            )[s]).passed,
        lives(steps, q, seen)[i].safe ==> (seen[i].seen.open_file_lines is Some
            ==> seen[i].seen.open_file_lines->0 < 2) && !seen[i].seen.owner_running
            && !seen[i].seen.recent_write,
{
    let asked = Question { path: steps[i].path, ..q };
    safe_needs_every_step(steps[i].candidate_id, asked, seen[i].seen);
    presence_and_quiet_pass(asked, seen[i].seen);
    let s = steps_of(asked, seen[i].seen);
    if forall|k: int| 0 <= k < 5 ==> (#[trigger] s[k]).passed {
        assert(s[0].passed && s[1].passed && s[2].passed && s[3].passed && s[4].passed);
    }
}

/// A file takes the blocks that it has on the disk, at half a kibibyte each: one that was only
/// announced takes nothing. What a plan is to reach is what is free and what it needs.
pub proof fn files_take_their_blocks(len: u64, blocks: u64, free: u64, need: u64)
    ensures
        on_disk(len, blocks) == blocks * 512,
        free + need <= u64::MAX ==> goal_of(free, need) == free + need,
        free + need > u64::MAX ==> goal_of(free, need) == u64::MAX,
{
}

// ---------------------------------------------------------------------------
// Guarding a command
// ---------------------------------------------------------------------------
/// Space is freed for a command exactly where it needs more than is free, what is not known counting
/// as nothing. It is deleted at once exactly where less than the threshold is free.
pub proof fn guard_frees_what_is_missing(need: u64, free: Option<u64>, threshold: u64)
    ensures
        ({
            let f = if free is Some {
                free->0
            } else {
                0
            };
            &&& recovery_of(need, free, threshold) is Some <==> need > f
            &&& recovery_of(need, free, threshold) matches Some(r) ==> r.df_before == f
                && r.need_bytes == need && f + r.to_recover == need && (r.mode == Mode::Immediate
                <==> f < threshold)
        }),
{
}

/// A disk is told to be full by any of three phrases.
pub proof fn full_disks_are_told_by_phrase(lower: Seq<char>)
    ensures
        tells_of_full_disk(lower) <==> occurs(lower, "no space left on device"@) || occurs(
            lower,
            "errno 28"@,
        ) || occurs(lower, "enospc"@),
{
}

/// The guard ends with the code of the last run of its command. A run that was killed, or an error,
/// ends it with 1, and only a code of 0 without an error is a success.
pub proof fn guard_ends_with_the_last_run(s: GuardView)
    ensures
        s.error is Some ==> guard_exit(s) == 1 && !succeeded(s),
        s.error is None && s.re_execed && s.second_exit is Some ==> guard_exit(s)
            == s.second_exit->0,
        s.error is None && s.re_execed && s.second_exit is None ==> guard_exit(s) == 1,
        s.error is None && !s.re_execed && s.first_exit is Some ==> guard_exit(s)
            == s.first_exit->0,
        s.error is None && !s.re_execed && s.first_exit is None ==> guard_exit(s) == 1,
        succeeded(s) <==> s.error is None && guard_exit(s) == 0,
{
}

/// A command that did not run out of space is not run again; one that did is, exactly where something
/// came free.
pub proof fn command_is_run_again_after_space_came_free(
    s: GuardView,
    e: GuardEventView,
    freed: u64,
)
    ensures
        s.phase == GuardPhase::FirstRun && e is Ran ==> {
            let t = guard_next(s, e);
            &&& t.phase == GuardPhase::Recovery <==> e->Ran_0.enospc
            &&& t.phase == GuardPhase::Done <==> !e->Ran_0.enospc
            &&& t.first_exit == e->Ran_0.exit_code
            &&& t.enospc_detected == e->Ran_0.enospc
        },
        s.phase == GuardPhase::Recovery ==> {
            let t = guard_next(s, GuardEventView::Freed(freed));
            &&& t.phase == GuardPhase::SecondRun <==> freed > 0
            &&& t.phase == GuardPhase::Done <==> freed == 0
            &&& t.freed_bytes == freed
        },
        s.phase == GuardPhase::SecondRun && e is Ran ==> {
            let t = guard_next(s, e);
            t.phase == GuardPhase::Done && t.re_execed && t.second_exit == e->Ran_0.exit_code
        },
        s.phase == GuardPhase::Done ==> guard_next(s, e) == s,
{
}

/// The acute phase turns to the next candidate as long as there is one: after consent to the first,
/// after a removal, a failed check or a refusal of the grant to the one that follows.
pub proof fn acute_phase_goes_through_its_candidates(t: AcuteTask, s: AcuteState, yes: bool)
    ensures
        ({
            let first = acute_step(t, s, AcuteEvent::Consent(true));
            s.phase == AcutePhase::Consent ==> first.position == 0 && first.deleted == s.deleted && (
            first.phase == AcutePhase::Reading <==> t.candidates.len() > 0) && (first.phase
                == AcutePhase::Finished <==> t.candidates.len() == 0)
        }),
        ({
            let no = acute_step(t, s, AcuteEvent::Consent(false));
            s.phase == AcutePhase::Consent ==> no.phase == AcutePhase::Finished && no.deleted
                == s.deleted
        }),
        ({
            let next = acute_step(t, s, AcuteEvent::Removed(yes));
            s.phase == AcutePhase::Removing ==> (next.phase == AcutePhase::Reading <==> s.position + 1
                < t.candidates.len()) && (next.phase == AcutePhase::Finished <==> s.position + 1
                >= t.candidates.len())
        }),
        ({
            let next = acute_step(t, s, AcuteEvent::Checked(false));
            s.phase == AcutePhase::Checking ==> (next.phase == AcutePhase::Reading <==> s.position + 1
                < t.candidates.len()) && (next.phase == AcutePhase::Finished <==> s.position + 1
                >= t.candidates.len())
        }),
        ({
            let start = acute_start(t, yes);
            &&& start.position == 0 && start.freed_total == 0 && start.grant_spent == 0
                && start.deleted.len() == 0
            &&& yes ==> start.phase == AcutePhase::Consent
            &&& !yes ==> (start.phase == AcutePhase::Reading <==> t.candidates.len() > 0)
        }),
{
}

/// A grant is charged in the acute phase for what it allowed, and for nothing else.
pub proof fn acute_phase_charges_its_grant(t: AcuteTask, s: AcuteState)
    requires
        s.phase == AcutePhase::Checking,
        0 <= s.position < t.candidates.len(),
    ensures
        ({
            let r = acute_step(t, s, AcuteEvent::Checked(true));
            &&& t.grant is None ==> r.grant_spent == s.grant_spent
            &&& t.grant is Some && r.phase == AcutePhase::Removing && s.grant_spent
                + t.candidates[s.position].size_bytes <= u64::MAX ==> r.grant_spent == s.grant_spent
                + t.candidates[s.position].size_bytes
        }),
{
}

/// An execution starts with nothing done, at the first step that may be taken up; once no step is left
/// it is over.
pub proof fn execution_starts_at_the_first_step(job: Job, s: ExecutionView)
    ensures
        job.steps.len() > 0 && job.grant is None ==> execute_start(job).phase == Phase::Acting
            && execute_start(job).position == 0,
        job.steps.len() == 0 ==> execute_start(job).phase == Phase::Finished,
        execute_start(job).freed_bytes == 0,
        settle(job, s, job.steps.len() as int).phase == Phase::Finished,
        settle(job, s, job.steps.len() as int).items == s.items,
{
    lemma_settle_keeps(
        job,
        ExecutionView {
            phase: Phase::Finished,
            position: 0,
            freed_bytes: 0,
            grant_spent: 0,
            items: Seq::empty(),
        },
        0,
    );
}

/// What is staged is what the steps add up to without what the disk confirms.
pub proof fn staged_is_what_is_not_confirmed(o: ExecuteOutcome)
    ensures
        o.freed_bytes >= o.actually_freed ==> o.staged_bytes() + o.actually_freed == o.freed_bytes,
        o.freed_bytes < o.actually_freed ==> o.staged_bytes() == 0,
{
}

/// The consequences that a contract was made from are its own.
pub proof fn contracts_keep_their_consequences(c: ContractView)
    ensures
        contract_consequences(c).recovery == c.recovery_class,
        contract_consequences(c).rebuild_seconds == c.recovery_cost_seconds,
        contract_consequences(c).impact == c.impact,
        contract_consequences(c).recovery_cmd == c.recovery_cmd,
{
}

/// A guard without a command does nothing; one with a command runs it first.
pub proof fn guards_start_with_their_command(words: nat)
    ensures
        guard_start(words).phase == GuardPhase::FirstRun <==> words > 0,
        guard_start(words).phase == GuardPhase::Done <==> words == 0,
        guard_start(words).first_exit is None,
        guard_start(words).error is None,
        !guard_start(words).re_execed,
{
}

/// What a guard needs is what was asked for, and five gibibytes where nothing was; what cannot be read
/// counts as nothing.
pub proof fn guard_needs_what_was_asked_for(asked: Seq<char>)
    ensures
        guard_need(None) == 5_368_709_120,
        size_of_text(asked) is Some ==> guard_need(Some(asked)) == size_of_text(asked)->0,
        size_of_text(asked) is None ==> guard_need(Some(asked)) == 0,
        size_of_text(asked) == size_in(lowered(trimmed(asked))),
{
    let t = "5G"@;
    reveal_strlit("5G");
    reveal_strlit("g");
    let five = decimal(5);
    sizes_are_whole_units(5);
    assert(five =~= seq!['5']);
    assert(t =~= seq!['5', 'G']);
    let low = five + "g"@;
    assert(low =~= seq!['5', 'g']);
    assert(ascii_lower_all(t) =~= low);
    assert(ascii_lower_all(low) =~= low);
    sizes_ignore_case(t, low);
}

/// Numbers are written into a plan's bytes with the lowest byte first.
pub proof fn numbers_are_written_lowest_first(n: nat, k: nat)
    ensures
        little_endian(n, k).len() == k,
        k > 0 ==> little_endian(n, k)[0] == n % 256,
        k > 0 ==> little_endian(n, k).skip(1) == little_endian(n / 256, (k - 1) as nat),
    decreases k,
{
    if k > 0 {
        numbers_are_written_lowest_first(n / 256, (k - 1) as nat);
        assert(little_endian(n, k).skip(1) =~= little_endian(n / 256, (k - 1) as nat));
    }
}

/// The bytes of a plan are those of its steps, one after the other in the order of their ids: the id,
/// the path, the size and the mode, each text with its length before it and each part closed by a
/// zero.
pub proof fn plan_bytes_follow_the_steps(a: Action, rest: Seq<Action>)
    ensures
        records(Seq::empty()).len() == 0,
        records(seq![a] + rest) == record(a) + records(rest),
        record(a) == (little_endian(encode_utf8(a.id).len(), 8) + encode_utf8(a.id) + seq![0u8]) + (
        little_endian(encode_utf8(a.path).len(), 8) + encode_utf8(a.path) + seq![0u8]) + (
        little_endian(a.size as nat, 8) + seq![0u8]) + (little_endian(encode_utf8(a.mode).len(), 8)
            + encode_utf8(a.mode) + seq![0u8]),
{
    assert((seq![a] + rest).drop_first() =~= rest);
}

/// A command line that cannot be read, or a program that cannot be started, is named with the reason.
pub proof fn complaints_name_the_command(line: Seq<char>, program: Seq<char>, reason: Seq<char>)
    ensures
        parse_complaint(line) == "could not parse --exec '"@ + line + "': missing closing quote"@,
        spawn_complaint(program, reason) == "failed to spawn '"@ + program + "': "@ + reason,
{
}

/// A plain command line is cut at its blanks: a word behind a blank is a word of its own.
pub proof fn plain_lines_are_cut_at_blanks(s: Seq<char>, word: Seq<char>, blank: char)
    requires
        blank == ' ' || blank == '\t' || blank == '\n',
        word.len() > 0,
        forall|i: int|
            0 <= i < word.len() ==> #[trigger] word[i] != ' ' && word[i] != '\t' && word[i] != '\n',
    ensures
        blank_runs(Seq::empty()).len() == 0,
        blank_runs(s.push(blank)) == blank_runs(s),
        blank_runs(s.push(blank) + word) == blank_runs(s).push(word),
    decreases word.len(),
{
    let t = s.push(blank);
    assert(t.drop_last() =~= s);
    let u = t + word;
    let w = word.drop_last();
    assert(u.last() == word[word.len() - 1]);
    assert(u.drop_last() =~= t + w);
    if word.len() == 1 {
        assert(w =~= Seq::<char>::empty());
        assert(u.drop_last() =~= t);
        assert(u[u.len() - 2] == blank);
        assert(seq![u.last()] =~= word);
        assert(blank_runs(u.drop_last()) == blank_runs(s));
        assert(blank_runs(u) == blank_runs(s).push(seq![u.last()]));
    } else {
        assert forall|i: int| 0 <= i < w.len() implies #[trigger] w[i] != ' ' && w[i] != '\t' && w[i]
            != '\n' by {
            assert(w[i] == word[i]);
        }
        plain_lines_are_cut_at_blanks(s, w, blank);
        assert(u[u.len() - 2] == word[word.len() - 2]);
        let runs = blank_runs(s).push(w);
        assert(runs.drop_last() =~= blank_runs(s));
        assert(w.push(u.last()) =~= word);
        assert(blank_runs(u.drop_last()) == runs);
        assert(blank_runs(u) == runs.drop_last().push(runs.last().push(u.last())));
    }
}

/// A refusal tells what was planned and what was found.
pub proof fn refusals_tell_what_changed(
    a: Seq<char>,
    b: Seq<char>,
    planned: u64,
    found: u64,
)
    ensures
        (RefusalView::HashMismatch { expected: a, actual: b }).text()
            == "plan hash mismatch: file recomputes to "@ + b + " but "@ + a
            + " was requested (tampered or stale plan)"@,
        (RefusalView::Missing { path: a }).text() == "target no longer exists: "@ + a
            + " (refusing — plan is stale)"@,
        (RefusalView::SizeDrift { path: a, planned, found }).text()
            == "target size drifted >10%: "@ + a + " planned "@ + decimal(planned as nat)
            + " bytes, now "@ + decimal(found as nat) + " bytes (refusing)"@,
        (RefusalView::Unsafe { path: a, candidate_id: b }).text()
            == "live pressure-test now UNSAFE for "@ + a + " ("@ + b
            + ") — refusing to act on a stale-safe plan"@,
{
}

} // verus!
