//! What is held aside: which entries are restored or purged, and how long each has left.

#[allow(unused_imports)]
use crate::airlock::airlock_receipt;
#[allow(unused_imports)]
use crate::classify::classify_receipt;
#[allow(unused_imports)]
use crate::doctor::{Mode, PlanStepView};
#[allow(unused_imports)]
use crate::execute::doctor_receipt;
use crate::history::{freed_between, ActionKind, Entry, Tone};
#[allow(unused_imports)]
use crate::history::{
    context_view, growth, newest_undoable, reversal_of, undo_finds_the_entry, undo_id,
    undo_passes_over_what_cannot_be_undone, undo_reverses_the_action_just_done, undo_text, undoable, MoveKind, ReceiptView,
    ReversalView,
};
use crate::model::elapsed_days;
#[allow(unused_imports)]
use crate::model::{days_between, CandidateView};
use crate::order::marked_positions;
#[allow(unused_imports)]
use crate::order::{arranged, indices, lemma_marked, marked};
use crate::text::same;
#[allow(unused_imports)]
use crate::text::{is_white_space, opt_str_view};
use vstd::prelude::*;

verus! {

/// A path that is held aside.
#[derive(Debug)]
pub struct Held {
    pub id: String,
    pub candidate_id: String,
    pub original_path: String,
    pub stored_path: String,
    pub size_bytes: u64,
    pub stored_at: i64,
    pub auto_purge_at: i64,
}

pub ghost struct HeldView {
    pub id: Seq<char>,
    pub candidate_id: Seq<char>,
    pub original_path: Seq<char>,
    pub stored_path: Seq<char>,
    pub size_bytes: u64,
    pub stored_at: i64,
    pub auto_purge_at: i64,
}

impl View for Held {
    type V = HeldView;

    open spec fn view(&self) -> HeldView {
        HeldView {
            id: self.id@,
            candidate_id: self.candidate_id@,
            original_path: self.original_path@,
            stored_path: self.stored_path@,
            size_bytes: self.size_bytes,
            stored_at: self.stored_at,
            auto_purge_at: self.auto_purge_at,
        }
    }
}

pub open spec fn held_views(v: Seq<Held>) -> Seq<HeldView> {
    v.map_values(|h: Held| h@)
}

impl Held {
    pub fn duplicate(&self) -> (r: Held)
        ensures
            r@ == self@,
    {
        Held {
            id: self.id.as_str().to_owned(),
            candidate_id: self.candidate_id.as_str().to_owned(),
            original_path: self.original_path.as_str().to_owned(),
            stored_path: self.stored_path.as_str().to_owned(),
            size_bytes: self.size_bytes,
            stored_at: self.stored_at,
            auto_purge_at: self.auto_purge_at,
        }
    }
}

/// The bytes of all entries.
pub open spec fn held_bytes(v: Seq<HeldView>) -> nat
    decreases v.len(),
{
    if v.len() == 0 {
        0
    } else {
        held_bytes(v.drop_last()) + v.last().size_bytes as nat
    }
}

pub fn total_held(v: &Vec<Held>) -> (r: u128)
    ensures
        r == held_bytes(held_views(v@)),
{
    let ghost w = held_views(v@);
    let mut sum: u128 = 0;
    let mut i: usize = 0;
    assert(w.take(0) =~= Seq::<HeldView>::empty());
    while i < v.len()
        invariant
            i <= v@.len(),
            w == held_views(v@),
            sum == held_bytes(w.take(i as int)),
            sum <= i * 0xffff_ffff_ffff_ffff,
        decreases v.len() - i,
    {
        proof {
            assert(w.take(i + 1).drop_last() =~= w.take(i as int));
            assert(w.take(i + 1).last() == v@[i as int]@);
            assert(i * 0xffff_ffff_ffff_ffff <= 0xffff_ffff_ffff_ffff * 0xffff_ffff_ffff_ffff)
                by (nonlinear_arith)
                requires
                    i <= 0xffff_ffff_ffff_ffff,
            ;
            assert((i + 1) * 0xffff_ffff_ffff_ffff == i * 0xffff_ffff_ffff_ffff
                + 0xffff_ffff_ffff_ffff) by (nonlinear_arith);
        }
        sum = sum + v[i].size_bytes as u128;
        i += 1;
    }
    assert(w.take(i as int) =~= w);
    sum
}

/// The entries at some positions.
pub fn at_positions(v: &Vec<Held>, picks: &Vec<usize>) -> (r: Vec<Held>)
    requires
        forall|k: int| 0 <= k < picks@.len() ==> #[trigger] picks@[k] < v@.len(),
    ensures
        held_views(r@) == arranged(held_views(v@), indices(picks@)),
{
    let mut out: Vec<Held> = Vec::new();
    let mut i: usize = 0;
    while i < picks.len()
        invariant
            i <= picks@.len(),
            forall|j: int| 0 <= j < picks@.len() ==> #[trigger] picks@[j] < v@.len(),
            out@.len() == i,
            forall|j: int| 0 <= j < i ==> (#[trigger] out@[j])@ == v@[picks@[j] as int]@,
        decreases picks.len() - i,
    {
        out.push(v[picks[i]].duplicate());
        i += 1;
    }
    assert(held_views(out@) =~= arranged(held_views(v@), indices(picks@)));
    out
}

/// The marks of the positions that are not in a list.
pub open spec fn other_flags(n: nat, picks: Seq<int>) -> Seq<bool> {
    Seq::new(n, |i: int| !picks.contains(i))
}

/// What stays in the store when the entries at some positions leave, in its order.
pub open spec fn remaining(v: Seq<HeldView>, picks: Seq<int>) -> Seq<HeldView> {
    arranged(v, marked(other_flags(v.len(), picks)))
}

fn is_among(picks: &Vec<usize>, i: usize) -> (r: bool)
    ensures
        r == indices(picks@).contains(i as int),
{
    let mut k: usize = 0;
    while k < picks.len()
        invariant
            k <= picks@.len(),
            forall|j: int| 0 <= j < k ==> #[trigger] picks@[j] != i,
        decreases picks.len() - k,
    {
        if picks[k] == i {
            assert(indices(picks@)[k as int] == i as int);
            return true;
        }
        k += 1;
    }
    assert forall|j: int| 0 <= j < indices(picks@).len() implies indices(picks@)[j] != i as int by {
        assert(picks@[j] != i);
    }
    false
}

/// The store without the entries at some positions.
pub fn without_positions(v: &Vec<Held>, picks: &Vec<usize>) -> (r: Vec<Held>)
    ensures
        held_views(r@) == remaining(held_views(v@), indices(picks@)),
{
    let ghost w = held_views(v@);
    let mut flags: Vec<bool> = Vec::new();
    let mut i: usize = 0;
    while i < v.len()
        invariant
            i <= v@.len(),
            flags@.len() == i,
            forall|j: int| 0 <= j < i ==> #[trigger] flags@[j] == !indices(picks@).contains(j),
        decreases v.len() - i,
    {
        let gone: bool = is_among(picks, i);
        flags.push(!gone);
        i += 1;
    }
    assert(flags@ =~= other_flags(w.len(), indices(picks@)));
    let stay: Vec<usize> = marked_positions(&flags);
    at_positions(v, &stay)
}

/// An entry stays in the store exactly where it was not picked.
pub proof fn only_the_picked_leave(v: Seq<HeldView>, picks: Seq<int>, i: int)
    requires
        0 <= i < v.len(),
    ensures
        marked(other_flags(v.len(), picks)).contains(i) <==> !picks.contains(i),
{
    let flags = other_flags(v.len(), picks);
    lemma_marked(flags);
    if !picks.contains(i) {
        assert(flags[i]);
    }
    if marked(flags).contains(i) {
        let k = choose|k: int| 0 <= k < marked(flags).len() && marked(flags)[k] == i;
        assert(flags[marked(flags)[k]]);
    }
}

// ---------------------------------------------------------------------------
// Restoring
// ---------------------------------------------------------------------------
/// What a restore is to do.
#[derive(Debug)]
pub enum RestoreChoice {
    /// There is nothing to restore.
    Empty,
    /// Neither an entry nor all of them were asked for.
    NoTarget,
    /// No entry has that id or path.
    NotFound,
    /// The entries at these positions.
    Positions(Vec<usize>),
}

/// An entry is meant by its id or by its original path.
pub open spec fn meant(h: HeldView, target: Seq<char>) -> bool {
    h.id == target || h.original_path == target
}

/// The positions of all entries.
pub open spec fn everything(n: nat) -> Seq<int> {
    Seq::new(n, |i: int| i)
}

pub open spec fn choice_of(v: Seq<HeldView>, target: Option<Seq<char>>, all: bool, r: RestoreChoice) -> bool {
    if v.len() == 0 {
        r is Empty
    } else if all {
        r is Positions && indices(r->Positions_0@) == everything(v.len())
    } else {
        match target {
            None => r is NoTarget,
            Some(t) => if exists|i: int| 0 <= i < v.len() && meant(#[trigger] v[i], t) {
                &&& r is Positions
                &&& r->Positions_0@.len() == 1
                &&& r->Positions_0@[0] < v.len()
                &&& meant(v[r->Positions_0@[0] as int], t)
                &&& forall|j: int|
                    0 <= j < r->Positions_0@[0] ==> !meant(#[trigger] v[j], t)
            } else {
                r is NotFound
            },
        }
    }
}

/// Which entries a restore takes: all of them, or the first that is meant by the target.
pub fn choose_entries(v: &Vec<Held>, target: Option<&str>, all: bool) -> (r: RestoreChoice)
    ensures
        choice_of(held_views(v@), opt_str_view(target), all, r),
{
    let ghost w = held_views(v@);
    assert(w.len() == v@.len());
    if v.len() == 0 {
        return RestoreChoice::Empty;
    }
    if all {
        let mut picks: Vec<usize> = Vec::new();
        let mut i: usize = 0;
        while i < v.len()
            invariant
                i <= v@.len(),
                picks@.len() == i,
                forall|j: int| 0 <= j < i ==> #[trigger] picks@[j] == j,
            decreases v.len() - i,
        {
            picks.push(i);
            i += 1;
        }
        assert(indices(picks@) =~= everything(w.len()));
        return RestoreChoice::Positions(picks);
    }
    let t: &str = match target {
        Some(t) => t,
        None => {
            return RestoreChoice::NoTarget;
        },
    };
    let mut i: usize = 0;
    while i < v.len()
        invariant
            i <= v@.len(),
            w == held_views(v@),
            w.len() == v@.len(),
            v@.len() > 0,
            !all,
            opt_str_view(target) == Some(t@),
            forall|j: int| 0 <= j < i ==> !meant(#[trigger] w[j], t@),
        decreases v.len() - i,
    {
        assert(w[i as int] == v@[i as int]@);
        if same(v[i].id.as_str(), t) || same(v[i].original_path.as_str(), t) {
            let mut picks: Vec<usize> = Vec::new();
            picks.push(i);
            assert(meant(w[i as int], t@));
            return RestoreChoice::Positions(picks);
        }
        i += 1;
    }
    RestoreChoice::NotFound
}

/// What went into the airlock can be brought back: its receipt can be undone, and the id that the
/// undo command names is the one under which the entry is held.
pub proof fn undo_reaches_what_was_airlocked(
    c: CandidateView,
    kind: MoveKind,
    before: Option<u64>,
    after: Option<u64>,
    ts: i64,
    held: HeldView,
)
    requires
        held.id.len() > 0,
        forall|i: int| 0 <= i < held.id.len() ==> !is_white_space(#[trigger] held.id[i]),
    ensures
        ({
            let receipt = airlock_receipt(c, held.id, kind, before, after, ts);
            &&& undoable(receipt)
            &&& undo_id(receipt.undo_cmd) == Some(held.id)
            &&& reversal_of(receipt) == Some(ReversalView::Restore(held.id))
            &&& meant(held, undo_id(receipt.undo_cmd)->0)
        }),
{
    undo_finds_the_entry(held.id);
}

/// What a classified path left in the airlock can be brought back: its receipt can be undone, and
/// the undo restores the entry under which the path is held.
pub proof fn undo_reaches_what_was_classified(
    id: Seq<char>,
    signature: Seq<char>,
    path: Seq<char>,
    size: u64,
    kind: MoveKind,
    before: Option<u64>,
    after: Option<u64>,
    ts: i64,
    held: HeldView,
)
    requires
        held.id.len() > 0,
        forall|i: int| 0 <= i < held.id.len() ==> !is_white_space(#[trigger] held.id[i]),
    ensures
        ({
            let receipt = classify_receipt(
                id,
                signature,
                path,
                held.id,
                size,
                kind,
                before,
                after,
                ts,
            );
            &&& undoable(receipt)
            &&& reversal_of(receipt) == Some(ReversalView::Restore(held.id))
            &&& meant(held, undo_id(receipt.undo_cmd)->0)
        }),
{
    undo_finds_the_entry(held.id);
}

/// What a plan moved into the airlock can be brought back: the receipt of the step can be undone,
/// and the undo restores the entry under which the path is held. A step that deleted cannot be
/// undone.
pub proof fn undo_reaches_what_a_plan_airlocked(
    s: PlanStepView,
    df_before: u64,
    kind: Option<MoveKind>,
    ts: i64,
    held: HeldView,
)
    requires
        held.id.len() > 0,
        forall|i: int| 0 <= i < held.id.len() ==> !is_white_space(#[trigger] held.id[i]),
    ensures
        ({
            let receipt = doctor_receipt(s, df_before, Some(undo_text(held.id)), kind, ts);
            &&& undoable(receipt) == (Mode::named(s.mode) == Mode::Airlock)
            &&& undoable(receipt) ==> reversal_of(receipt) == Some(ReversalView::Restore(held.id))
            &&& meant(held, undo_id(receipt.undo_cmd)->0)
        }),
        !undoable(doctor_receipt(s, df_before, None, kind, ts)),
{
    undo_finds_the_entry(held.id);
}

/// The position of the entry with an id.
pub fn find_entry(v: &Vec<Held>, id: &str) -> (r: Option<usize>)
    ensures
        match r {
            Some(i) => i < v@.len() && v@[i as int].id@ == id@ && forall|j: int|
                0 <= j < i ==> (#[trigger] v@[j]).id@ != id@,
            None => forall|j: int| 0 <= j < v@.len() ==> (#[trigger] v@[j]).id@ != id@,
        },
{
    let mut i: usize = 0;
    while i < v.len()
        invariant
            i <= v@.len(),
            forall|j: int| 0 <= j < i ==> (#[trigger] v@[j]).id@ != id@,
        decreases v.len() - i,
    {
        if same(v[i].id.as_str(), id) {
            return Some(i);
        }
        i += 1;
    }
    None
}

pub open spec fn restore_receipt(h: HeldView, ts: i64) -> ReceiptView {
    ReceiptView {
        ts,
        command: ActionKind::Restore,
        candidate_id: Some(h.candidate_id),
        rule_id: None,
        path: h.original_path,
        size_bytes: h.size_bytes,
        df_before: None,
        df_after: None,
        actually_freed: None,
        reversible: false,
        undo_cmd: None,
        rule_confidence: None,
        context: Seq::empty(),
    }
}

/// The receipt of a restored entry.
pub fn restored_receipt(h: &Held, ts: i64) -> (r: Entry)
    ensures
        r@ == restore_receipt(h@, ts),
{
    let context: Vec<(String, String)> = Vec::new();
    assert(context_view(context@) =~= Seq::empty());
    Entry {
        ts,
        command: ActionKind::Restore,
        candidate_id: Some(h.candidate_id.as_str().to_owned()),
        rule_id: None,
        path: h.original_path.as_str().to_owned(),
        size_bytes: h.size_bytes,
        df_before: None,
        df_after: None,
        actually_freed: None,
        reversible: false,
        undo_cmd: None,
        rule_confidence: None,
        context,
    }
}

/// The marks of all positions but one, taken in order, are those before it and those behind it.
proof fn lemma_all_but_one(n: nat, k: int)
    requires
        0 <= k < n,
    ensures
        marked(other_flags(n, seq![k])) == everything(n).remove(k),
    decreases n,
{
    let flags = other_flags(n, seq![k]);
    let before = other_flags((n - 1) as nat, seq![k]);
    assert(seq![k][0] == k);
    assert(flags.drop_last() =~= before);
    if k == n - 1 {
        assert(flags.last() == false);
        lemma_all((n - 1) as nat, k);
        assert(everything(n).remove(k) =~= everything((n - 1) as nat));
    } else {
        lemma_all_but_one((n - 1) as nat, k);
        assert(flags.last());
        assert(everything(n).remove(k) =~= everything((n - 1) as nat).remove(k).push(n - 1));
    }
}

proof fn lemma_all(n: nat, k: int)
    requires
        k >= n,
    ensures
        marked(other_flags(n, seq![k])) == everything(n),
    decreases n,
{
    if n > 0 {
        let flags = other_flags(n, seq![k]);
        assert(flags.drop_last() =~= other_flags((n - 1) as nat, seq![k]));
        assert(flags.last());
        lemma_all((n - 1) as nat, k);
        assert(everything(n) =~= everything((n - 1) as nat).push(n - 1));
    } else {
        assert(everything(n) =~= Seq::empty());
    }
}

/// When one entry leaves, every other stays, in its order.
pub proof fn one_leaves_and_the_others_stay(v: Seq<HeldView>, k: int)
    requires
        0 <= k < v.len(),
    ensures
        remaining(v, seq![k]) == v.remove(k),
{
    lemma_all_but_one(v.len(), k);
    assert(remaining(v, seq![k]) =~= v.remove(k));
}

/// An undo reverses exactly one action: the entry that the newest reversible receipt names leaves
/// the store, every other stays in its order, and one receipt of a restore to the entry's original
/// path is added, which cannot itself be undone and so changes nothing of what is reversible.
pub proof fn undo_takes_back_one_entry(
    ledger: Seq<ReceiptView>,
    taken: int,
    v: Seq<HeldView>,
    k: int,
    ts: i64,
)
    requires
        newest_undoable(ledger, taken),
        0 <= k < v.len(),
        reversal_of(ledger[taken]) == Some(ReversalView::Restore(v[k].id)),
        forall|j: int| 0 <= j < k ==> (#[trigger] v[j]).id != v[k].id,
    ensures
        remaining(v, seq![k]) == v.remove(k),
        ({
            let receipt = restore_receipt(v[k], ts);
            &&& receipt.command == ActionKind::Restore
            &&& receipt.path == v[k].original_path
            &&& !receipt.reversible
            &&& !undoable(receipt)
            &&& newest_undoable(seq![receipt] + ledger, taken + 1)
        }),
{
    one_leaves_and_the_others_stay(v, k);
    undo_passes_over_what_cannot_be_undone(restore_receipt(v[k], ts), ledger, taken);
}

/// An undo gives back what the last action took: where a path was put into the airlock under a new
/// id and its receipt was the last to be written, the undo picks that receipt, finds that entry,
/// leaves the store as it was before, and its own receipt names the path that was put aside.
pub proof fn undo_gives_back_what_was_put_aside(
    receipt: ReceiptView,
    held: HeldView,
    ledger: Seq<ReceiptView>,
    taken: int,
    v: Seq<HeldView>,
    k: int,
    ts: i64,
)
    requires
        undoable(receipt),
        reversal_of(receipt) == Some(ReversalView::Restore(held.id)),
        held.original_path == receipt.path,
        forall|j: int| 0 <= j < v.len() ==> (#[trigger] v[j]).id != held.id,
        newest_undoable(seq![receipt] + ledger, taken),
        0 <= k <= v.len(),
        v.push(held)[k].id == held.id,
    ensures
        taken == 0,
        v.push(held)[k] == held,
        remaining(v.push(held), seq![k]) == v,
        restore_receipt(v.push(held)[k], ts).path == receipt.path,
{
    undo_reverses_the_action_just_done(receipt, ledger, taken);
    let all = v.push(held);
    if k < v.len() {
        assert(all[k] == v[k]);
    }
    one_leaves_and_the_others_stay(all, k);
    assert(all.remove(k) =~= v);
}

pub open spec fn purge_receipt(
    h: HeldView,
    before: Option<u64>,
    after: Option<u64>,
    ts: i64,
) -> ReceiptView {
    ReceiptView {
        ts,
        command: ActionKind::Purge,
        candidate_id: Some(h.candidate_id),
        rule_id: None,
        path: h.original_path,
        size_bytes: h.size_bytes,
        df_before: before,
        df_after: after,
        actually_freed: growth(before, after),
        reversible: false,
        undo_cmd: None,
        rule_confidence: None,
        context: Seq::empty(),
    }
}

/// The receipt of a purged entry, with the free space before and after it.
pub fn purged_receipt(h: &Held, before: Option<u64>, after: Option<u64>, ts: i64) -> (r: Entry)
    ensures
        r@ == purge_receipt(h@, before, after, ts),
{
    let context: Vec<(String, String)> = Vec::new();
    assert(context_view(context@) =~= Seq::empty());
    Entry {
        ts,
        command: ActionKind::Purge,
        candidate_id: Some(h.candidate_id.as_str().to_owned()),
        rule_id: None,
        path: h.original_path.as_str().to_owned(),
        size_bytes: h.size_bytes,
        df_before: before,
        df_after: after,
        actually_freed: freed_between(before, after),
        reversible: false,
        undo_cmd: None,
        rule_confidence: None,
        context,
    }
}

// ---------------------------------------------------------------------------
// Purging
// ---------------------------------------------------------------------------
/// An entry may be purged: by its age where one is given, else when its time is over.
pub open spec fn purgeable(h: HeldView, older_than: Option<u32>, now: i64) -> bool {
    match older_than {
        Some(days) => days_between(now, h.stored_at) >= days,
        None => now >= h.auto_purge_at,
    }
}

pub open spec fn purge_flags(v: Seq<HeldView>, older_than: Option<u32>, now: i64) -> Seq<bool> {
    v.map_values(|h: HeldView| purgeable(h, older_than, now))
}

/// The positions of the entries that may be purged.
pub fn purge_positions(v: &Vec<Held>, older_than: Option<u32>, now: i64) -> (r: Vec<usize>)
    ensures
        indices(r@) == marked(purge_flags(held_views(v@), older_than, now)),
        forall|k: int| 0 <= k < r@.len() ==> #[trigger] r@[k] < v@.len(),
{
    let ghost w = held_views(v@);
    let mut flags: Vec<bool> = Vec::new();
    let mut i: usize = 0;
    while i < v.len()
        invariant
            i <= v@.len(),
            w == held_views(v@),
            flags@.len() == i,
            forall|j: int| 0 <= j < i ==> #[trigger] flags@[j] == purgeable(w[j], older_than, now),
        decreases v.len() - i,
    {
        assert(w[i as int] == v@[i as int]@);
        let yes: bool = match older_than {
            Some(days) => elapsed_days(now, v[i].stored_at) >= days as i64,
            None => now >= v[i].auto_purge_at,
        };
        flags.push(yes);
        i += 1;
    }
    assert(flags@ =~= purge_flags(w, older_than, now));
    marked_positions(&flags)
}

// ---------------------------------------------------------------------------
// Status
// ---------------------------------------------------------------------------
/// How an entry is shown: its remaining days, never fewer than none, and how urgent they are.
pub open spec fn days_tone(days: int) -> Tone {
    if days <= 3 {
        Tone::Danger
    } else if days <= 7 {
        Tone::Caution
    } else {
        Tone::Calm
    }
}

pub fn days_left(h: &Held, now: i64) -> (r: (i64, Tone))
    ensures
        ({
            let days = days_between(h.auto_purge_at, now);
            r.0 == (if days > 0 {
                days
            } else {
                0
            }) && r.1 == days_tone(days)
        }),
{
    let days: i64 = elapsed_days(h.auto_purge_at, now);
    let tone: Tone = if days <= 3 {
        Tone::Danger
    } else if days <= 7 {
        Tone::Caution
    } else {
        Tone::Calm
    };
    if days > 0 {
        (days, tone)
    } else {
        (0, tone)
    }
}

} // verus!
