//! What holds of what is held aside and of the receipts that every action leaves.

use crate::acute::emergency_receipt;
use crate::airlock::{airlock_receipt, deletion_receipt};
use crate::classify::{classify_receipt, repack_receipt};
use crate::execute::doctor_receipt;
use crate::doctor::PlanStepView;
use crate::history::{
    age_label, freed_bytes, growth, moved, newest_undoable, restorable, reversal_of, reversed,
    tone_of, touched_bytes, ActionKind, MoveKind, ReceiptView, ReversalView, Tone,
};
use crate::model::CandidateView;
use crate::order::{lemma_marked, marked};
use crate::store::{
    choice_of, days_tone, held_bytes, purge_flags, purge_receipt, restore_receipt, HeldView,
    RestoreChoice,
};
use crate::stow::{stow_receipt, CloudProvider, OffloadMechanism};
use crate::text::decimal_int;
use crate::time_laws::whole_units_have_gone_by;
use crate::watch::{fresh_state, unasked_receipt};
use vstd::prelude::*;

verus! {

// ---------------------------------------------------------------------------
// The store
// ---------------------------------------------------------------------------
/// Without an age, a purge takes exactly the entries whose own time has come.
pub proof fn purge_takes_what_is_due(v: Seq<HeldView>, now: i64, i: int)
    ensures
        marked(purge_flags(v, None, now)).contains(i) <==> 0 <= i < v.len() && now
            >= v[i].auto_purge_at,
{
    let flags = purge_flags(v, None, now);
    lemma_marked(flags);
    if marked(flags).contains(i) {
        let k = marked(flags).index_of(i);
        assert(flags[marked(flags)[k]]);
    }
    if 0 <= i < v.len() && now >= v[i].auto_purge_at {
        assert(flags[i]);
    }
}

/// With an age, a purge takes exactly the entries that have been held for so many whole days or more,
/// whenever their own time would come. An age of none takes every entry, but for one that is dated a
/// day or more ahead.
pub proof fn purge_takes_what_is_old_enough(v: Seq<HeldView>, days: u32, now: i64, i: int)
    ensures
        days >= 1 ==> (marked(purge_flags(v, Some(days), now)).contains(i) <==> 0 <= i < v.len()
            && now - v[i].stored_at >= days * 86_400_000_000_000),
        days == 0 ==> (marked(purge_flags(v, Some(days), now)).contains(i) <==> 0 <= i < v.len()
            && now - v[i].stored_at > -86_400_000_000_000),
{
    let flags = purge_flags(v, Some(days), now);
    lemma_marked(flags);
    if 0 <= i < v.len() {
        if days >= 1 {
            whole_units_have_gone_by(now, v[i].stored_at, days as int);
        }
        if flags[i] {
            assert(marked(flags).contains(i));
        }
    }
    if marked(flags).contains(i) {
        let k = marked(flags).index_of(i);
        assert(flags[marked(flags)[k]]);
    }
}

/// A restore takes the first entry that has the target for its id or its original path, or every entry
/// where all were asked for. It finds none exactly where no entry has it.
pub proof fn restore_takes_what_was_named(
    v: Seq<HeldView>,
    target: Option<Seq<char>>,
    all: bool,
    r: RestoreChoice,
)
    requires
        choice_of(v, target, all, r),
    ensures
        r is Empty <==> v.len() == 0,
        r is NoTarget <==> v.len() > 0 && !all && target is None,
        r is NotFound <==> v.len() > 0 && !all && target is Some && forall|i: int|
            0 <= i < v.len() ==> (#[trigger] v[i]).id != target->0 && v[i].original_path
                != target->0,
        r is Positions && all ==> r->Positions_0@.len() == v.len() && forall|i: int|
            0 <= i < v.len() ==> #[trigger] r->Positions_0@[i] == i,
        r is Positions && !all ==> {
            let p = r->Positions_0@;
            &&& p.len() == 1
            &&& p[0] < v.len()
            &&& v[p[0] as int].id == target->0 || v[p[0] as int].original_path == target->0
            &&& forall|i: int|
                0 <= i < p[0] ==> (#[trigger] v[i]).id != target->0 && v[i].original_path
                    != target->0
        },
{
    if r is Positions && all {
        let p = r->Positions_0@;
        let n = crate::order::indices(p);
        assert(n.len() == p.len());
        assert forall|i: int| 0 <= i < v.len() implies #[trigger] p[i] == i by {
            assert(n[i] == crate::store::everything(v.len())[i]);
        }
    }
    if v.len() > 0 && !all && target is Some {
        let t = target->0;
        if exists|i: int| 0 <= i < v.len() && crate::store::meant(#[trigger] v[i], t) {
            let i = choose|i: int| 0 <= i < v.len() && crate::store::meant(#[trigger] v[i], t);
            assert(v[i].id == t || v[i].original_path == t);
        } else {
            assert forall|i: int| 0 <= i < v.len() implies (#[trigger] v[i]).id != t
                && v[i].original_path != t by {
                assert(!crate::store::meant(v[i], t));
            }
        }
    }
}

/// Entries count with their bytes; the fewer days one has left, the more urgent it is: three or fewer
/// are danger, seven or fewer caution.
pub proof fn held_bytes_and_urgency(v: Seq<HeldView>, h: HeldView, days: int)
    ensures
        held_bytes(Seq::empty()) == 0,
        held_bytes(v.push(h)) == held_bytes(v) + h.size_bytes,
        days_tone(days) == Tone::Danger <==> days <= 3,
        days_tone(days) == Tone::Caution <==> 3 < days <= 7,
        days_tone(days) == Tone::Calm <==> days > 7,
{
    assert(v.push(h).drop_last() =~= v);
}

// ---------------------------------------------------------------------------
// Receipts
// ---------------------------------------------------------------------------
/// Space counts as freed exactly where more is free afterwards than before, and then by the
/// difference. A move within a volume frees nothing.
pub proof fn freed_is_what_the_disk_gained(before: Option<u64>, after: Option<u64>)
    ensures
        growth(before, after) is Some <==> before is Some && after is Some && after->0 > before->0,
        growth(before, after) is Some ==> before->0 + growth(before, after)->0 == after->0,
        moved(MoveKind::Rename, before, after) is None,
        moved(MoveKind::CopyRemove, before, after) == growth(before, after),
{
}

/// What was moved aside can be brought back by the id it is held under; its receipt says what was
/// moved and claims no space that the disk did not gain.
pub proof fn moves_leave_a_way_back(
    c: CandidateView,
    id: Seq<char>,
    kind: MoveKind,
    before: Option<u64>,
    after: Option<u64>,
    ts: i64,
    signature: Seq<char>,
    path: Seq<char>,
    size: u64,
)
    ensures
        ({
            let a = airlock_receipt(c, id, kind, before, after, ts);
            let b = classify_receipt(c.id, signature, path, id, size, kind, before, after, ts);
            &&& a.command == ActionKind::Airlock && b.command == ActionKind::Airlock
            &&& a.reversible && b.reversible
            &&& a.undo_cmd == Some("diskspace restore "@ + id)
            &&& b.undo_cmd == Some("diskspace restore "@ + id)
            &&& a.path == c.path && a.size_bytes == c.size_bytes && a.candidate_id == Some(c.id)
                && a.rule_id == Some(c.rule_id) && a.rule_confidence == Some(c.confidence)
            &&& b.path == path && b.size_bytes == size && b.candidate_id == Some(c.id)
            &&& a.ts == ts && b.ts == ts
            &&& a.df_before == before && a.df_after == after && b.df_before == before && b.df_after
                == after
            &&& kind == MoveKind::Rename ==> a.actually_freed is None && b.actually_freed is None
            &&& kind == MoveKind::CopyRemove ==> a.actually_freed == growth(before, after)
                && b.actually_freed == growth(before, after)
        }),
{
}

/// What was deleted or packed for good leaves a receipt that offers no way back, whichever command
/// did it.
pub proof fn deletions_leave_no_way_back(
    c: CandidateView,
    h: HeldView,
    free: u64,
    before: Option<u64>,
    after: Option<u64>,
    ts: i64,
    signature: Seq<char>,
    path: Seq<char>,
    size: u64,
)
    ensures
        ({
            let a = deletion_receipt(c, before, after, ts);
            let b = emergency_receipt(c, free, ts);
            let d = unasked_receipt(c, ts);
            let p = purge_receipt(h, before, after, ts);
            let r = repack_receipt(signature, path, size, before, after, ts);
            &&& !a.reversible && !b.reversible && !d.reversible && !p.reversible && !r.reversible
            &&& a.undo_cmd is None && b.undo_cmd is None && d.undo_cmd is None && p.undo_cmd is None
                && r.undo_cmd is None
            &&& a.command == ActionKind::Reclaim && b.command == ActionKind::Doctor && d.command
                == ActionKind::Reclaim && p.command == ActionKind::Purge && r.command
                == ActionKind::Repack
            &&& a.path == c.path && b.path == c.path && d.path == c.path && p.path
                == h.original_path && r.path == path
            &&& a.size_bytes == c.size_bytes && b.size_bytes == c.size_bytes && d.size_bytes
                == c.size_bytes && p.size_bytes == h.size_bytes && r.size_bytes == size
            &&& a.candidate_id == Some(c.id) && b.candidate_id == Some(c.id) && d.candidate_id
                == Some(c.id) && p.candidate_id == Some(h.candidate_id)
            &&& a.actually_freed == growth(before, after) && p.actually_freed == growth(
                before,
                after,
            ) && r.actually_freed == growth(before, after) && b.actually_freed is None
                && d.actually_freed is None
            &&& a.df_before == before && a.df_after == after && p.df_before == before && p.df_after
                == after && b.df_before == Some(free)
            &&& a.ts == ts && b.ts == ts && d.ts == ts && p.ts == ts && r.ts == ts
        }),
{
}

/// The receipt of a plan's step speaks of that step, and can be undone exactly where the step moved its
/// path aside and left the command for it.
pub proof fn plan_receipts_speak_of_their_step(
    s: PlanStepView,
    df_before: u64,
    undo: Option<Seq<char>>,
    kind: Option<MoveKind>,
    ts: i64,
)
    ensures
        ({
            let r = doctor_receipt(s, df_before, undo, kind, ts);
            &&& r.command == ActionKind::Doctor
            &&& r.reversible <==> s.mode != "immediate"@
            &&& r.undo_cmd == undo
            &&& r.path == s.path && r.size_bytes == s.size_bytes && r.candidate_id == Some(
                s.candidate_id,
            ) && r.rule_id == Some(s.rule_id) && r.rule_confidence == Some(s.confidence)
            &&& r.df_before == Some(df_before) && r.actually_freed is None && r.ts == ts
        }),
{
}

/// What was restored leaves a receipt that names the path it went back to and cannot itself be undone.
pub proof fn restores_cannot_be_undone(h: HeldView, e: ReceiptView, ts: i64)
    ensures
        ({
            let a = restore_receipt(h, ts);
            let b = reversed(e, ts);
            &&& a.command == ActionKind::Restore && b.command == ActionKind::Restore
            &&& !a.reversible && !b.reversible && a.undo_cmd is None && b.undo_cmd is None
            &&& a.path == h.original_path && a.size_bytes == h.size_bytes && a.candidate_id == Some(
                h.candidate_id,
            )
            &&& b.path == e.path && b.size_bytes == e.size_bytes && b.candidate_id
                == e.candidate_id
            &&& a.actually_freed is None && b.actually_freed is None && a.ts == ts && b.ts == ts
        }),
{
}

/// What was moved to the cloud can be brought back: by its client where that took it off the disk, and
/// else by opening it.
pub proof fn offloads_leave_a_way_back(
    path: Seq<char>,
    provider: CloudProvider,
    size: u64,
    before: Option<u64>,
    after: Option<u64>,
    ts: i64,
)
    ensures
        ({
            let m = stow_receipt(
                path,
                provider,
                OffloadMechanism::MaestralExclude,
                size,
                before,
                after,
                ts,
            );
            let i = stow_receipt(
                path,
                provider,
                OffloadMechanism::ICloudEvict,
                size,
                before,
                after,
                ts,
            );
            &&& m.command == ActionKind::Offload && i.command == ActionKind::Offload
            &&& m.reversible && i.reversible && i.undo_cmd is Some
            &&& m.undo_cmd == Some("maestral excluded remove "@ + path)
            &&& reversal_of(m) == Some(
                ReversalView::Run(seq!["maestral"@, "excluded"@, "remove"@, path]),
            )
            &&& i.undo_cmd != Some("maestral excluded remove "@ + path) ==> reversal_of(i) == Some(
                ReversalView::Open(path),
            )
            &&& m.path == path && m.size_bytes == size && i.path == path && i.size_bytes == size
            &&& m.actually_freed == growth(before, after) && i.actually_freed == growth(
                before,
                after,
            )
        }),
{
}

/// An undo takes the newest receipt that is reversible and names a command; every newer one is not or
/// names none.
pub proof fn undo_takes_the_newest_reversible(entries: Seq<ReceiptView>, i: int)
    ensures
        newest_undoable(entries, i) <==> 0 <= i < entries.len() && entries[i].reversible
            && entries[i].undo_cmd is Some && forall|j: int|
            0 <= j < i ==> !((#[trigger] entries[j]).reversible && entries[j].undo_cmd is Some),
        newest_undoable(entries, i) && entries[i].command != ActionKind::Offload ==> reversal_of(
            entries[i],
        ) is None || reversal_of(entries[i])->0 is Restore,
{
    if newest_undoable(entries, i) {
        assert forall|j: int| 0 <= j < i implies !((#[trigger] entries[j]).reversible
            && entries[j].undo_cmd is Some) by {
            assert(!crate::history::undoable(entries[j]));
        }
    }
}

/// The ledger adds up: bytes touched, bytes the disk gained, and how many receipts can be restored.
pub proof fn receipts_add_up(v: Seq<ReceiptView>, e: ReceiptView)
    ensures
        touched_bytes(Seq::empty()) == 0,
        freed_bytes(Seq::empty()) == 0,
        restorable(Seq::empty()) == 0,
        touched_bytes(v.push(e)) == touched_bytes(v) + e.size_bytes,
        e.actually_freed is Some ==> freed_bytes(v.push(e)) == freed_bytes(v) + e.actually_freed->0,
        e.actually_freed is None ==> freed_bytes(v.push(e)) == freed_bytes(v),
        e.reversible ==> restorable(v.push(e)) == restorable(v) + 1,
        !e.reversible ==> restorable(v.push(e)) == restorable(v),
{
    assert(v.push(e).drop_last() =~= v);
}

/// The age of a receipt is told in the largest unit of which a whole one has gone by.
pub proof fn ages_are_told_in_whole_units(now: i64, ts: i64)
    ensures
        now - ts >= 86_400_000_000_000 ==> age_label(now, ts) == decimal_int(
            (now - ts) / 86_400_000_000_000,
        ) + "d ago"@,
        3_600_000_000_000 <= now - ts < 86_400_000_000_000 ==> age_label(now, ts) == decimal_int(
            (now - ts) / 3_600_000_000_000,
        ) + "h ago"@,
        60_000_000_000 <= now - ts < 3_600_000_000_000 ==> age_label(now, ts) == decimal_int(
            (now - ts) / 60_000_000_000,
        ) + "m ago"@,
        now - ts < 60_000_000_000 ==> age_label(now, ts) == "just now"@,
{
    whole_units_have_gone_by(now, ts, 1);
}

/// What deletes for good is shown as a danger, and what gives back or keeps everything as good.
pub proof fn tones_warn_of_loss(command: ActionKind)
    ensures
        tone_of(command) == Tone::Danger <==> command == ActionKind::Reclaim || command
            == ActionKind::Purge,
        tone_of(command) == Tone::Good <==> command == ActionKind::Restore || command
            == ActionKind::Repack,
        tone_of(command) == Tone::Caution <==> command == ActionKind::Airlock || command
            == ActionKind::Doctor || command == ActionKind::Offload,
{
}

/// A watch that has not looked yet remembers nothing.
pub proof fn fresh_watches_remember_nothing()
    ensures
        ({
            let s = fresh_state();
            s.last_level is None && s.last_ts is None && s.last_notified_ts is None
                && s.last_notified_share is None && s.last_autoreclaim_ts is None
                && s.last_free_share is None && s.last_free_bytes is None && s.last_total_bytes
                is None
        }),
{
}

} // verus!
