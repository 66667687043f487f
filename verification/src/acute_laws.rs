//! What holds of the acute phase, whatever events come in.

#[allow(unused_imports)]
use crate::acute::{
    acute_order_is_safest_first, acute_rank, acute_start, acute_step, acute_work, consent_needed,
    granted, harmless, trusted_free, zero_loss, AcuteEvent, AcutePhase, AcuteState, AcuteTask,
};
#[allow(unused_imports)]
use crate::doctor::{bytes_at, grant_missing};
#[allow(unused_imports)]
use crate::grant::GrantDecision;
#[allow(unused_imports)]
use crate::model::{CandidateView, Context};
use vstd::prelude::*;

verus! {

/// The state after a list of events.
pub open spec fn acute_after(t: AcuteTask, ask: bool, events: Seq<AcuteEvent>) -> AcuteState
    decreases events.len(),
{
    if events.len() == 0 {
        acute_start(t, ask)
    } else {
        acute_step(t, acute_after(t, ask, events.drop_last()), events.last())
    }
}

pub open spec fn ascending(s: Seq<int>) -> bool {
    forall|i: int, j: int| 0 <= i < j < s.len() ==> #[trigger] s[i] < #[trigger] s[j]
}

pub open spec fn sum_capped(n: nat) -> u64 {
    if n <= u64::MAX {
        n as u64
    } else {
        u64::MAX
    }
}

/// What every state of the phase keeps.
pub open spec fn sound(t: AcuteTask, s: AcuteState) -> bool {
    &&& 0 <= s.position <= t.candidates.len()
    &&& (s.phase == AcutePhase::Reading || s.phase == AcutePhase::Checking || s.phase
        == AcutePhase::Removing) ==> s.position < t.candidates.len()
    &&& (s.phase == AcutePhase::Checking || s.phase == AcutePhase::Removing) ==> zero_loss(
        t.candidates[s.position].recovery_class(),
    )
    &&& s.phase == AcutePhase::Consent ==> s.deleted.len() == 0 && s.position == 0
    &&& ascending(s.deleted)
    &&& forall|k: int|
        0 <= k < s.deleted.len() ==> 0 <= #[trigger] s.deleted[k] < s.position && zero_loss(
            t.candidates[s.deleted[k]].recovery_class(),
        )
    &&& s.freed_total == sum_capped(bytes_at(t.candidates, s.deleted))
    &&& t.grant is Some ==> {
        &&& s.grant_spent <= t.grant->0.max_bytes
        &&& bytes_at(t.candidates, s.deleted) + (if s.phase == AcutePhase::Removing {
            t.candidates[s.position].size_bytes as nat
        } else {
            0
        }) <= s.grant_spent
    }
}

proof fn lemma_step_sound(t: AcuteTask, s: AcuteState, e: AcuteEvent)
    requires
        sound(t, s),
    ensures
        sound(t, acute_step(t, s, e)),
{
    let r = acute_step(t, s, e);
    if s.phase == AcutePhase::Removing && e == AcuteEvent::Removed(true) {
        let d = s.deleted.push(s.position);
        assert(r.deleted == d);
        assert(d.drop_last() =~= s.deleted);
        assert(bytes_at(t.candidates, d) == bytes_at(t.candidates, s.deleted)
            + t.candidates[s.position].size_bytes);
        assert forall|i: int, j: int| 0 <= i < j < d.len() implies #[trigger] d[i]
            < #[trigger] d[j] by {
            if j < s.deleted.len() {
                assert(s.deleted[i] < s.deleted[j]);
            } else {
                assert(s.deleted[i] < s.position);
            }
        }
        assert forall|k: int| 0 <= k < d.len() implies 0 <= #[trigger] d[k] < r.position
            && zero_loss(t.candidates[d[k]].recovery_class()) by {
            if k < s.deleted.len() {
                assert(d[k] == s.deleted[k]);
            }
        }
    }
}

proof fn lemma_run_sound(t: AcuteTask, ask: bool, events: Seq<AcuteEvent>)
    ensures
        sound(t, acute_after(t, ask, events)),
    decreases events.len(),
{
    if events.len() == 0 {
        assert(bytes_at(t.candidates, Seq::<int>::empty()) == 0);
    } else {
        lemma_run_sound(t, ask, events.drop_last());
        lemma_step_sound(t, acute_after(t, ask, events.drop_last()), events.last());
    }
}

/// Nothing is removed but what regenerates, downloads or builds again.
pub proof fn only_zero_loss_classes_are_removed(
    t: AcuteTask,
    ask: bool,
    events: Seq<AcuteEvent>,
    k: int,
)
    requires
        0 <= k < acute_after(t, ask, events).deleted.len(),
    ensures
        0 <= acute_after(t, ask, events).deleted[k] < t.candidates.len(),
        zero_loss(t.candidates[acute_after(t, ask, events).deleted[k]].recovery_class()),
{
    lemma_run_sound(t, ask, events);
    let s = acute_after(t, ask, events);
    assert(0 <= s.deleted[k] < s.position);
}

/// Candidates are removed in their order, and none twice.
pub proof fn removals_keep_the_order(t: AcuteTask, ask: bool, events: Seq<AcuteEvent>)
    ensures
        ascending(acute_after(t, ask, events).deleted),
{
    lemma_run_sound(t, ask, events);
}

/// Removals are safest first: no class is removed after a riskier one, and within a class nothing
/// larger is removed later.
pub proof fn removals_are_safest_first(
    all: Seq<CandidateView>,
    t: AcuteTask,
    ask: bool,
    events: Seq<AcuteEvent>,
    i: int,
    j: int,
)
    requires
        t.candidates == acute_work(all),
        0 <= i < j < acute_after(t, ask, events).deleted.len(),
    ensures
        ({
            let deleted = acute_after(t, ask, events).deleted;
            let (a, b) = (t.candidates[deleted[i]], t.candidates[deleted[j]]);
            let (x, y) = (acute_rank(a.recovery_class()), acute_rank(b.recovery_class()));
            x < y || (x == y && a.size_bytes >= b.size_bytes)
        }),
{
    lemma_run_sound(t, ask, events);
    let s = acute_after(t, ask, events);
    assert(s.deleted[i] < s.deleted[j] < s.position);
    acute_order_is_safest_first(harmless(all), s.deleted[i], s.deleted[j]);
}

/// The count of freed bytes is the sum of the sizes removed, held at the largest `u64`.
pub proof fn freed_bytes_are_those_removed(t: AcuteTask, ask: bool, events: Seq<AcuteEvent>)
    ensures
        acute_after(t, ask, events).freed_total == sum_capped(
            bytes_at(t.candidates, acute_after(t, ask, events).deleted),
        ),
{
    lemma_run_sound(t, ask, events);
}

/// All removals together stay within the byte limit of the grant.
pub proof fn removals_stay_within_the_grant(t: AcuteTask, ask: bool, events: Seq<AcuteEvent>)
    requires
        t.grant is Some,
    ensures
        bytes_at(t.candidates, acute_after(t, ask, events).deleted) <= t.grant->0.max_bytes,
{
    lemma_run_sound(t, ask, events);
}

/// A candidate comes up for removal only by a check that it passed and a grant that allows it.
pub proof fn removal_follows_a_passed_check(t: AcuteTask, s: AcuteState, e: AcuteEvent)
    requires
        s.phase != AcutePhase::Removing,
        acute_step(t, s, e).phase == AcutePhase::Removing,
    ensures
        s.phase == AcutePhase::Checking,
        e == AcuteEvent::Checked(true),
        granted(t, s) == GrantDecision::Allow,
        acute_step(t, s, e).position == s.position,
{
}

/// A candidate comes up for its check only while the trusted free space is below the target.
pub proof fn check_follows_a_low_reading(t: AcuteTask, s: AcuteState, e: AcuteEvent)
    requires
        s.phase != AcutePhase::Checking,
        acute_step(t, s, e).phase == AcutePhase::Checking,
    ensures
        s.phase == AcutePhase::Reading,
        e is Free,
        trusted_free(t, s, e->Free_0) < t.target,
        acute_step(t, s, e).position == s.position,
{
}

/// A reading at the target ends the phase, and an ended phase removes nothing more.
pub proof fn target_ends_the_phase(t: AcuteTask, s: AcuteState, reading: Option<u64>, e: AcuteEvent)
    requires
        s.phase == AcutePhase::Reading,
        trusted_free(t, s, reading) >= t.target,
    ensures
        ({
            let r = acute_step(t, s, AcuteEvent::Free(reading));
            r.phase == AcutePhase::Finished && r.deleted == s.deleted && acute_step(t, r, e) == r
        }),
{
}

/// Without consent nothing is removed.
pub proof fn refused_consent_removes_nothing(t: AcuteTask, e: AcuteEvent)
    ensures
        ({
            let r = acute_step(t, acute_start(t, true), AcuteEvent::Consent(false));
            r.deleted.len() == 0 && r.freed_total == 0 && acute_step(t, r, e) == r
        }),
{
}

/// Where actuation is on, a run is refused, a person is asked, or a grant speaks for it.
pub proof fn nobody_acts_unasked(ctx: Context, has_grant: bool)
    ensures
        grant_missing(ctx, true, has_grant) || consent_needed(ctx, true, has_grant) || has_grant,
{
}

} // verus!
