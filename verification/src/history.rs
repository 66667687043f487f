//! The ledger of what was done: receipts, totals over them, and how to undo the last one.

use crate::model::{elapsed_days, elapsed_hours, elapsed_minutes};
#[allow(unused_imports)]
use crate::model::{days_between, hours_between, minutes_between};
use crate::text::{copy_option, same, to_decimal_int, word_at_end};
#[allow(unused_imports)]
use crate::text::{
    decimal_int, is_white_space, last_run, last_word, opt_str_view, opt_view, trim_end, views,
};
use vstd::prelude::*;

verus! {

#[derive(Debug, Clone, Copy, PartialEq, Eq, Structural)]
pub enum ActionKind {
    Airlock,
    Restore,
    Purge,
    Reclaim,
    Doctor,
    Offload,
    Repack,
}

/// One line of the ledger.
#[derive(Debug)]
pub struct Entry {
    pub ts: i64,
    pub command: ActionKind,
    pub candidate_id: Option<String>,
    pub rule_id: Option<String>,
    pub path: String,
    pub size_bytes: u64,
    pub df_before: Option<u64>,
    pub df_after: Option<u64>,
    pub actually_freed: Option<u64>,
    pub reversible: bool,
    pub undo_cmd: Option<String>,
    pub rule_confidence: Option<u32>,
    pub context: Vec<(String, String)>,
}

pub ghost struct ReceiptView {
    pub ts: i64,
    pub command: ActionKind,
    pub candidate_id: Option<Seq<char>>,
    pub rule_id: Option<Seq<char>>,
    pub path: Seq<char>,
    pub size_bytes: u64,
    pub df_before: Option<u64>,
    pub df_after: Option<u64>,
    pub actually_freed: Option<u64>,
    pub reversible: bool,
    pub undo_cmd: Option<Seq<char>>,
    pub rule_confidence: Option<u32>,
    pub context: Seq<(Seq<char>, Seq<char>)>,
}

pub open spec fn context_view(c: Seq<(String, String)>) -> Seq<(Seq<char>, Seq<char>)> {
    c.map_values(|p: (String, String)| (p.0@, p.1@))
}

impl View for Entry {
    type V = ReceiptView;

    open spec fn view(&self) -> ReceiptView {
        ReceiptView {
            ts: self.ts,
            command: self.command,
            candidate_id: opt_view(self.candidate_id),
            rule_id: opt_view(self.rule_id),
            path: self.path@,
            size_bytes: self.size_bytes,
            df_before: self.df_before,
            df_after: self.df_after,
            actually_freed: self.actually_freed,
            reversible: self.reversible,
            undo_cmd: opt_view(self.undo_cmd),
            rule_confidence: self.rule_confidence,
            context: context_view(self.context@),
        }
    }
}

pub open spec fn receipt_views(v: Seq<Entry>) -> Seq<ReceiptView> {
    v.map_values(|e: Entry| e@)
}

// ---------------------------------------------------------------------------
// What an action freed
// ---------------------------------------------------------------------------
/// The growth of free space between two readings, where both are there and it grew.
pub open spec fn growth(before: Option<u64>, after: Option<u64>) -> Option<u64> {
    match (before, after) {
        (Some(b), Some(a)) => if a > b {
            Some((a - b) as u64)
        } else {
            None
        },
        _ => None,
    }
}

pub fn freed_between(before: Option<u64>, after: Option<u64>) -> (r: Option<u64>)
    ensures
        r == growth(before, after),
{
    match (before, after) {
        (Some(b), Some(a)) => if a > b {
            Some(a - b)
        } else {
            None
        },
        _ => None,
    }
}

/// How a path came into the airlock.
#[derive(Debug, Clone, Copy, PartialEq, Eq, Structural)]
pub enum MoveKind {
    /// Renamed within a volume: its bytes stay on the disk.
    Rename,
    /// Copied to another volume and removed.
    CopyRemove,
}

impl MoveKind {
    pub open spec fn text(self) -> Seq<char> {
        match self {
            MoveKind::Rename => "rename"@,
            MoveKind::CopyRemove => "copy_remove"@,
        }
    }

    pub fn as_str(&self) -> (r: &'static str)
        ensures
            r@ == self.text(),
    {
        match self {
            MoveKind::Rename => "rename",
            MoveKind::CopyRemove => "copy_remove",
        }
    }
}

/// What a move into the airlock freed: nothing where the bytes only changed their name.
pub open spec fn moved(kind: MoveKind, before: Option<u64>, after: Option<u64>) -> Option<u64> {
    match kind {
        MoveKind::CopyRemove => growth(before, after),
        MoveKind::Rename => None,
    }
}

pub fn freed_by_move(kind: MoveKind, before: Option<u64>, after: Option<u64>) -> (r: Option<u64>)
    ensures
        r == moved(kind, before, after),
{
    match kind {
        MoveKind::CopyRemove => freed_between(before, after),
        MoveKind::Rename => None,
    }
}

// ---------------------------------------------------------------------------
// Undo
// ---------------------------------------------------------------------------
/// The command that brings an airlocked entry back.
pub open spec fn undo_text(id: Seq<char>) -> Seq<char> {
    "diskspace restore "@ + id
}

pub fn undo_command(id: &str) -> (r: String)
    ensures
        r@ == undo_text(id@),
{
    let mut out: String = "diskspace restore ".to_owned();
    out.append(id);
    out
}

/// The id in an undo command: its last word.
pub open spec fn undo_id(cmd: Option<Seq<char>>) -> Option<Seq<char>> {
    match cmd {
        Some(c) => last_word(c),
        None => None,
    }
}

pub fn parse_id_from_undo_cmd(cmd: Option<&str>) -> (r: Option<String>)
    ensures
        opt_view(r) == undo_id(opt_str_view(cmd)),
{
    match cmd {
        Some(c) => word_at_end(c),
        None => None,
    }
}

/// A receipt that `undo` can reverse.
pub open spec fn undoable(e: ReceiptView) -> bool {
    e.reversible && e.undo_cmd is Some
}

/// The position of the most recent reversible action in a list of receipts, newest first.
pub open spec fn newest_undoable(entries: Seq<ReceiptView>, i: int) -> bool {
    0 <= i < entries.len() && undoable(entries[i]) && forall|j: int|
        0 <= j < i ==> !undoable(#[trigger] entries[j])
}

/// The most recent reversible action: the first receipt of a list, newest first, that can be
/// undone, whichever command wrote it.
pub fn last_reversible(entries: &Vec<Entry>) -> (r: Option<usize>)
    ensures
        match r {
            Some(i) => newest_undoable(receipt_views(entries@), i as int),
            None => forall|j: int|
                0 <= j < entries@.len() ==> !undoable((#[trigger] entries@[j])@),
        },
{
    let ghost w = receipt_views(entries@);
    let mut i: usize = 0;
    while i < entries.len()
        invariant
            i <= entries@.len(),
            w == receipt_views(entries@),
            forall|j: int| 0 <= j < i ==> !undoable((#[trigger] entries@[j])@),
        decreases entries.len() - i,
    {
        let e: &Entry = &entries[i];
        if e.reversible && e.undo_cmd.is_some() {
            assert(w[i as int] == e@);
            assert(newest_undoable(w, i as int)) by {
                assert forall|j: int| 0 <= j < i implies !undoable(#[trigger] w[j]) by {
                    assert(w[j] == entries@[j]@);
                }
            }
            return Some(i);
        }
        i += 1;
    }
    None
}

/// How an action is reversed.
#[derive(Debug)]
pub enum Reversal {
    /// Bring the entry with this id back from the airlock.
    Restore(String),
    /// Run this command.
    Run(Vec<String>),
    /// Open this path, which fetches it from the cloud again.
    Open(String),
}

pub ghost enum ReversalView {
    Restore(Seq<char>),
    Run(Seq<Seq<char>>),
    Open(Seq<char>),
}

impl View for Reversal {
    type V = ReversalView;

    open spec fn view(&self) -> ReversalView {
        match self {
            Reversal::Restore(id) => ReversalView::Restore(id@),
            Reversal::Run(argv) => ReversalView::Run(views(argv@)),
            Reversal::Open(path) => ReversalView::Open(path@),
        }
    }
}

/// The command that takes a path back into a Maestral sync.
pub open spec fn maestral_undo(path: Seq<char>) -> Seq<char> {
    "maestral excluded remove "@ + path
}

/// How a receipt is reversed: an offload by its provider, anything else from the airlock. None
/// where it cannot be undone or its undo command names no entry.
pub open spec fn reversal_of(e: ReceiptView) -> Option<ReversalView> {
    if !undoable(e) {
        None
    } else if e.command == ActionKind::Offload {
        if e.undo_cmd == Some(maestral_undo(e.path)) {
            Some(ReversalView::Run(seq!["maestral"@, "excluded"@, "remove"@, e.path]))
        } else {
            Some(ReversalView::Open(e.path))
        }
    } else {
        match undo_id(e.undo_cmd) {
            Some(id) => Some(ReversalView::Restore(id)),
            None => None,
        }
    }
}

pub fn reversal(e: &Entry) -> (r: Option<Reversal>)
    ensures
        match r {
            Some(x) => reversal_of(e@) == Some(x@),
            None => reversal_of(e@) is None,
        },
{
    if !e.reversible {
        return None;
    }
    let cmd: &str = match &e.undo_cmd {
        Some(c) => c.as_str(),
        None => {
            return None;
        },
    };
    if e.command == ActionKind::Offload {
        let mut again: String = "maestral excluded remove ".to_owned();
        again.append(e.path.as_str());
        if same(cmd, again.as_str()) {
            let mut argv: Vec<String> = Vec::new();
            argv.push("maestral".to_owned());
            argv.push("excluded".to_owned());
            argv.push("remove".to_owned());
            argv.push(e.path.as_str().to_owned());
            assert(views(argv@) =~= seq!["maestral"@, "excluded"@, "remove"@, e.path@]);
            return Some(Reversal::Run(argv));
        }
        return Some(Reversal::Open(e.path.as_str().to_owned()));
    }
    match parse_id_from_undo_cmd(Some(cmd)) {
        Some(id) => Some(Reversal::Restore(id)),
        None => None,
    }
}

pub open spec fn reversed(e: ReceiptView, ts: i64) -> ReceiptView {
    ReceiptView {
        ts,
        command: ActionKind::Restore,
        df_before: None,
        df_after: None,
        actually_freed: None,
        reversible: false,
        undo_cmd: None,
        rule_id: None,
        rule_confidence: None,
        context: Seq::empty(),
        ..e
    }
}

/// The receipt of an action that was reversed without the airlock.
pub fn reversed_receipt(e: &Entry, ts: i64) -> (r: Entry)
    ensures
        r@ == reversed(e@, ts),
{
    let context: Vec<(String, String)> = Vec::new();
    assert(context_view(context@) =~= Seq::empty());
    Entry {
        ts,
        command: ActionKind::Restore,
        candidate_id: copy_option(&e.candidate_id),
        rule_id: None,
        path: e.path.as_str().to_owned(),
        size_bytes: e.size_bytes,
        df_before: None,
        df_after: None,
        actually_freed: None,
        reversible: false,
        undo_cmd: None,
        rule_confidence: None,
        context,
    }
}

/// Undo reverses the action just done where that can be undone, whatever the ledger held before.
pub proof fn undo_reverses_the_action_just_done(
    e: ReceiptView,
    ledger: Seq<ReceiptView>,
    taken: int,
)
    requires
        undoable(e),
        newest_undoable(seq![e] + ledger, taken),
    ensures
        taken == 0,
        newest_undoable(seq![e] + ledger, 0),
{
    let all = seq![e] + ledger;
    assert(all[0] == e);
}

/// A receipt that cannot be undone changes nothing of what undo reverses.
pub proof fn undo_passes_over_what_cannot_be_undone(
    e: ReceiptView,
    ledger: Seq<ReceiptView>,
    taken: int,
)
    requires
        !undoable(e),
    ensures
        newest_undoable(ledger, taken) == (taken >= 0 && newest_undoable(
            seq![e] + ledger,
            taken + 1,
        )),
{
    let all = seq![e] + ledger;
    assert forall|j: int| 0 <= j < ledger.len() implies #[trigger] ledger[j] == all[j + 1] by {}
    if newest_undoable(ledger, taken) {
        assert forall|j: int| 0 <= j < taken + 1 implies !undoable(#[trigger] all[j]) by {
            if j > 0 {
                assert(all[j] == ledger[j - 1]);
            }
        }
    }
}

proof fn lemma_last_run_of(front: Seq<char>, id: Seq<char>)
    requires
        forall|i: int| 0 <= i < id.len() ==> !is_white_space(#[trigger] id[i]),
        front.len() > 0,
        is_white_space(front.last()),
    ensures
        last_run(front + id) == id,
    decreases id.len(),
{
    let s = front + id;
    if id.len() == 0 {
        assert(s =~= front);
        assert(last_run(s) =~= id);
    } else {
        let shorter = id.drop_last();
        assert forall|i: int| 0 <= i < shorter.len() implies !is_white_space(
            #[trigger] shorter[i],
        ) by {
            assert(shorter[i] == id[i]);
        }
        lemma_last_run_of(front, shorter);
        assert(s.drop_last() =~= front + shorter);
        assert(s.last() == id.last());
        assert(shorter.push(id.last()) =~= id);
    }
}

/// The undo command of an entry gives back the id of that entry, for every id that is a word.
pub proof fn undo_finds_the_entry(id: Seq<char>)
    requires
        id.len() > 0,
        forall|i: int| 0 <= i < id.len() ==> !is_white_space(#[trigger] id[i]),
    ensures
        undo_id(Some(undo_text(id))) == Some(id),
{
    let front = "diskspace restore "@;
    reveal_strlit("diskspace restore ");
    assert(is_white_space(front.last()));
    let s = front + id;
    assert(s.last() == id.last());
    assert(trim_end(s) == s);
    lemma_last_run_of(front, id);
}

// ---------------------------------------------------------------------------
// Totals
// ---------------------------------------------------------------------------
pub open spec fn touched_bytes(v: Seq<ReceiptView>) -> nat
    decreases v.len(),
{
    if v.len() == 0 {
        0
    } else {
        touched_bytes(v.drop_last()) + v.last().size_bytes as nat
    }
}

pub open spec fn freed_bytes(v: Seq<ReceiptView>) -> nat
    decreases v.len(),
{
    if v.len() == 0 {
        0
    } else {
        freed_bytes(v.drop_last()) + match v.last().actually_freed {
            Some(b) => b as nat,
            None => 0,
        }
    }
}

pub open spec fn restorable(v: Seq<ReceiptView>) -> nat
    decreases v.len(),
{
    if v.len() == 0 {
        0
    } else {
        restorable(v.drop_last()) + if v.last().reversible {
            1nat
        } else {
            0
        }
    }
}

/// The sums over a list of receipts.
#[derive(Debug, Clone, Copy, PartialEq, Eq, Structural)]
pub struct Totals {
    pub touched: u128,
    pub freed: u128,
    pub restorable: usize,
}

pub fn receipt_totals(entries: &Vec<Entry>) -> (r: Totals)
    ensures
        r.touched == touched_bytes(receipt_views(entries@)),
        r.freed == freed_bytes(receipt_views(entries@)),
        r.restorable == restorable(receipt_views(entries@)),
{
    let ghost w = receipt_views(entries@);
    let mut touched: u128 = 0;
    let mut freed: u128 = 0;
    let mut count: usize = 0;
    let mut i: usize = 0;
    assert(w.take(0) =~= Seq::<ReceiptView>::empty());
    while i < entries.len()
        invariant
            i <= entries@.len(),
            w == receipt_views(entries@),
            touched == touched_bytes(w.take(i as int)),
            freed == freed_bytes(w.take(i as int)),
            count == restorable(w.take(i as int)),
            touched <= i * 0xffff_ffff_ffff_ffff,
            freed <= i * 0xffff_ffff_ffff_ffff,
            count <= i,
        decreases entries.len() - i,
    {
        assert(w.take(i + 1).drop_last() =~= w.take(i as int));
        assert(w.take(i + 1).last() == entries@[i as int]@);
        assert(i * 0xffff_ffff_ffff_ffff <= 0xffff_ffff_ffff_ffff * 0xffff_ffff_ffff_ffff)
            by (nonlinear_arith)
            requires
                i <= 0xffff_ffff_ffff_ffff,
        ;
        touched = touched + entries[i].size_bytes as u128;
        if let Some(b) = entries[i].actually_freed {
            freed = freed + b as u128;
        }
        if entries[i].reversible {
            count = count + 1;
        }
        i += 1;
    }
    assert(w.take(i as int) =~= w);
    Totals { touched, freed, restorable: count }
}

/// How long ago a receipt was written, in the largest unit that counts at least one.
pub open spec fn age_label(now: i64, ts: i64) -> Seq<char> {
    if days_between(now, ts) > 0 {
        decimal_int(days_between(now, ts)) + "d ago"@
    } else if hours_between(now, ts) > 0 {
        decimal_int(hours_between(now, ts)) + "h ago"@
    } else if minutes_between(now, ts) > 0 {
        decimal_int(minutes_between(now, ts)) + "m ago"@
    } else {
        "just now"@
    }
}

pub fn age_text(now: i64, ts: i64) -> (r: String)
    ensures
        r@ == age_label(now, ts),
{
    let days: i64 = elapsed_days(now, ts);
    if days > 0 {
        let mut s: String = to_decimal_int(days);
        s.append("d ago");
        return s;
    }
    let hours: i64 = elapsed_hours(now, ts);
    if hours > 0 {
        let mut s: String = to_decimal_int(hours);
        s.append("h ago");
        return s;
    }
    let minutes: i64 = elapsed_minutes(now, ts);
    if minutes > 0 {
        let mut s: String = to_decimal_int(minutes);
        s.append("m ago");
        return s;
    }
    "just now".to_owned()
}

/// How a receipt is shown.
#[derive(Debug, Clone, Copy, PartialEq, Eq, Structural)]
pub enum Tone {
    Calm,
    Good,
    Caution,
    Danger,
}

pub open spec fn tone_of(command: ActionKind) -> Tone {
    match command {
        ActionKind::Reclaim | ActionKind::Purge => Tone::Danger,
        ActionKind::Restore | ActionKind::Repack => Tone::Good,
        ActionKind::Airlock | ActionKind::Doctor | ActionKind::Offload => Tone::Caution,
    }
}

/// A deletion is shown as a danger, a restore as good, and what can be undone as a caution.
pub fn command_tone(command: ActionKind) -> (r: Tone)
    ensures
        r == tone_of(command),
{
    match command {
        ActionKind::Reclaim | ActionKind::Purge => Tone::Danger,
        ActionKind::Restore | ActionKind::Repack => Tone::Good,
        ActionKind::Airlock | ActionKind::Doctor | ActionKind::Offload => Tone::Caution,
    }
}

} // verus!
