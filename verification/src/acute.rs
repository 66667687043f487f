//! The acute phase: a disk that is almost full is brought out of danger with the removals that
//! lose nothing, the safest first, and no more of them than it takes.
//!
//! The phase is a machine. The caller reads the disk, checks and removes paths as
//! [`AcuteAction`] says, and reports back with an [`AcuteEvent`].

use crate::detect::{candidate_recovery_class, pick};
use crate::doctor::{ACUTE_ABS_FLOOR_BYTES, DEFAULT_MIN_FREE};
use crate::grant::{allows, Denial, Grant, GrantDecision};
#[allow(unused_imports)]
use crate::grant::ruling;
use crate::history::{ActionKind, Entry};
#[allow(unused_imports)]
use crate::history::{context_view, ReceiptView};
use crate::model::{Candidate, Context};
#[allow(unused_imports)]
use crate::model::{candidate_views, CandidateView};
use crate::order::{order_of, pair_key, Key};
#[allow(unused_imports)]
use crate::order::{
    before, indices, key_views, lemma_pair_less, lemma_stable_order, pair, sorted_stably,
    stable_order,
};
use crate::report::total_bytes;
#[allow(unused_imports)]
use crate::model::total_size;
use crate::text::same;
use vstd::prelude::*;

verus! {

// ---------------------------------------------------------------------------
// Classes
// ---------------------------------------------------------------------------
/// A class whose loss costs no data: it regenerates, downloads or builds again.
pub open spec fn zero_loss(class: Seq<char>) -> bool {
    class == "auto"@ || class == "redownload"@ || class == "rebuild"@
}

pub fn is_acute_safe_class(recovery_class: &str) -> (r: bool)
    ensures
        r == zero_loss(recovery_class@),
{
    same(recovery_class, "auto") || same(recovery_class, "redownload") || same(
        recovery_class,
        "rebuild",
    )
}

pub open spec fn acute_rank(class: Seq<char>) -> u8 {
    if class == "auto"@ {
        0
    } else if class == "redownload"@ {
        1
    } else if class == "rebuild"@ {
        2
    } else {
        255
    }
}

/// The place of a class in the acute order, the safest first.
pub fn acute_class_rank(recovery_class: &str) -> (r: u8)
    ensures
        r == acute_rank(recovery_class@),
{
    if same(recovery_class, "auto") {
        0
    } else if same(recovery_class, "redownload") {
        1
    } else if same(recovery_class, "rebuild") {
        2
    } else {
        255
    }
}

// ---------------------------------------------------------------------------
// The danger zone
// ---------------------------------------------------------------------------
/// The share of the volume to reach, in millionths: the one asked for where it is positive.
pub open spec fn min_free_of(flag: Option<i64>) -> u64 {
    match flag {
        Some(v) => if v > 0 {
            v as u64
        } else {
            DEFAULT_MIN_FREE
        },
        None => DEFAULT_MIN_FREE,
    }
}

pub fn resolve_min_free_pct(flag: Option<i64>) -> (r: u64)
    ensures
        r == min_free_of(flag),
        r > 0,
{
    match flag {
        Some(v) => if v > 0 {
            v as u64
        } else {
            DEFAULT_MIN_FREE
        },
        None => DEFAULT_MIN_FREE,
    }
}

/// Both the share and the bytes that are free are too low. A volume of unknown size is never
/// acute.
pub open spec fn acute(free: u64, total: u64, min_free: u64) -> bool {
    total > 0 && free * 1_000_000 < min_free * total && free < ACUTE_ABS_FLOOR_BYTES
}

pub fn is_acute(free: u64, total: u64, min_free: u64) -> (r: bool)
    ensures
        r == acute(free, total, min_free),
{
    if total == 0 {
        return false;
    }
    let a: u128 = min_free as u128;
    let b: u128 = total as u128;
    assert(a * b <= 0xffff_ffff_ffff_ffff * 0xffff_ffff_ffff_ffff) by (nonlinear_arith)
        requires
            a <= 0xffff_ffff_ffff_ffff,
            b <= 0xffff_ffff_ffff_ffff,
    ;
    (free as u128 * 1_000_000) < a * b && free < ACUTE_ABS_FLOOR_BYTES
}

/// The share of the volume in whole bytes, held at the largest `u64`.
pub open spec fn target_of(total: u64, min_free: u64) -> u64 {
    let t = (total * min_free) / 1_000_000;
    if t <= u64::MAX {
        t as u64
    } else {
        u64::MAX
    }
}

pub fn acute_target_bytes(total: u64, min_free: u64) -> (r: u64)
    ensures
        r == target_of(total, min_free),
{
    let a: u128 = total as u128;
    let b: u128 = min_free as u128;
    assert(a * b <= 0xffff_ffff_ffff_ffff * 0xffff_ffff_ffff_ffff) by (nonlinear_arith)
        requires
            a <= 0xffff_ffff_ffff_ffff,
            b <= 0xffff_ffff_ffff_ffff,
    ;
    let t: u128 = (a * b) / 1_000_000;
    if t <= 0xffff_ffff_ffff_ffff {
        t as u64
    } else {
        u64::MAX
    }
}

/// What the acute phase is to reach, where the disk is acute. Without a reading it is not.
pub open spec fn acute_goal(df: Option<(u64, u64)>, min_free: u64) -> Option<u64> {
    match df {
        Some((free, total)) => if acute(free, total, min_free) {
            Some(target_of(total, min_free))
        } else {
            None
        },
        None => None,
    }
}

pub fn acute_stabilize(df: Option<(u64, u64)>, min_free: u64) -> (r: Option<u64>)
    ensures
        r == acute_goal(df, min_free),
{
    match df {
        Some((free, total)) => if is_acute(free, total, min_free) {
            Some(acute_target_bytes(total, min_free))
        } else {
            None
        },
        None => None,
    }
}

// ---------------------------------------------------------------------------
// Candidates
// ---------------------------------------------------------------------------
/// The candidates of a class that loses nothing.
pub open spec fn harmless(v: Seq<CandidateView>) -> Seq<CandidateView> {
    v.filter(|c: CandidateView| zero_loss(c.recovery_class()))
}

pub fn acute_candidates(v: &Vec<Candidate>) -> (r: Vec<Candidate>)
    ensures
        candidate_views(r@) == harmless(candidate_views(v@)),
{
    let ghost w = candidate_views(v@);
    let ghost keep = |c: CandidateView| zero_loss(c.recovery_class());
    let mut out: Vec<Candidate> = Vec::new();
    let mut i: usize = 0;
    proof {
        reveal(Seq::filter);
        assert(w.take(0) =~= Seq::<CandidateView>::empty());
        assert(candidate_views(out@) =~= w.take(0).filter(keep));
    }
    while i < v.len()
        invariant
            i <= v@.len(),
            w == candidate_views(v@),
            keep == (|c: CandidateView| zero_loss(c.recovery_class())),
            candidate_views(out@) == w.take(i as int).filter(keep),
        decreases v.len() - i,
    {
        let ghost before = candidate_views(out@);
        proof {
            reveal(Seq::filter);
            assert(w.take(i + 1).drop_last() =~= w.take(i as int));
            assert(w.take(i + 1).last() == v@[i as int]@);
        }
        if is_acute_safe_class(candidate_recovery_class(&v[i])) {
            out.push(v[i].duplicate());
            assert(candidate_views(out@) =~= before.push(v@[i as int]@));
        }
        i += 1;
    }
    assert(w.take(i as int) =~= w);
    out
}

/// The safest class first; within a class the larger.
pub open spec fn acute_key(c: CandidateView) -> Seq<Seq<int>> {
    pair(acute_rank(c.recovery_class()) as int, 0xffff_ffff_ffff_ffff - c.size_bytes)
}

pub open spec fn acute_keys(v: Seq<CandidateView>) -> Seq<Seq<Seq<int>>> {
    v.map_values(|c: CandidateView| acute_key(c))
}

pub open spec fn safest_first(v: Seq<CandidateView>) -> Seq<CandidateView> {
    sorted_stably(v, acute_keys(v))
}

/// Sorts candidates for the acute phase.
pub fn acute_order(v: &Vec<Candidate>) -> (r: Vec<Candidate>)
    ensures
        candidate_views(r@) == safest_first(candidate_views(v@)),
{
    let mut keys: Vec<Key> = Vec::new();
    let mut i: usize = 0;
    while i < v.len()
        invariant
            i <= v@.len(),
            keys@.len() == i,
            forall|j: int| 0 <= j < i ==> (#[trigger] keys@[j])@ == acute_key(v@[j]@),
        decreases v.len() - i,
    {
        keys.push(
            pair_key(
                acute_class_rank(candidate_recovery_class(&v[i])) as u64,
                0xffff_ffff_ffff_ffff - v[i].size_bytes,
            ),
        );
        i += 1;
    }
    assert(key_views(keys@) =~= acute_keys(candidate_views(v@)));
    let order: Vec<usize> = order_of(&keys);
    pick(v, &order)
}

/// A class never comes after a riskier one, and within a class no larger candidate comes later.
pub proof fn acute_order_is_safest_first(v: Seq<CandidateView>, i: int, j: int)
    requires
        0 <= i < j < safest_first(v).len(),
    ensures
        ({
            let (a, b) = (safest_first(v)[i], safest_first(v)[j]);
            let (x, y) = (acute_rank(a.recovery_class()), acute_rank(b.recovery_class()));
            x < y || (x == y && a.size_bytes >= b.size_bytes)
        }),
{
    let keys = acute_keys(v);
    let o = stable_order(keys);
    lemma_stable_order(keys);
    assert(before(keys, o[i], o[j]));
    let (a, b) = (v[o[i]], v[o[j]]);
    lemma_pair_less(
        acute_rank(a.recovery_class()) as int,
        0xffff_ffff_ffff_ffff - a.size_bytes,
        acute_rank(b.recovery_class()) as int,
        0xffff_ffff_ffff_ffff - b.size_bytes,
    );
    assert(keys[o[i]] == acute_key(a) && keys[o[j]] == acute_key(b));
    assert(safest_first(v)[i] == a && safest_first(v)[j] == b);
}

// ---------------------------------------------------------------------------
// The machine
// ---------------------------------------------------------------------------
#[derive(Debug, Clone, Copy, PartialEq, Eq, Structural)]
pub enum AcutePhase {
    /// Waiting for a person's consent.
    Consent,
    /// Waiting for a reading of the free space.
    Reading,
    /// Waiting for the check of the current candidate.
    Checking,
    /// Waiting for the removal of the current candidate.
    Removing,
    Finished,
}

/// What the caller saw.
#[derive(Debug, Clone, Copy, PartialEq, Eq, Structural)]
pub enum AcuteEvent {
    Consent(bool),
    Free(Option<u64>),
    Checked(bool),
    Removed(bool),
}

/// How far the phase has come.
#[derive(Debug)]
pub struct AcuteRun {
    /// What may be removed, the safest first.
    pub candidates: Vec<Candidate>,
    pub phase: AcutePhase,
    /// The position of the current candidate.
    pub position: usize,
    /// The bytes removed so far, by the sizes of the scan.
    pub freed_total: u64,
    /// The bytes that the grant has allowed so far.
    pub grant_spent: u64,
    /// The positions of the candidates that were removed.
    pub deleted: Vec<usize>,
}

#[verifier::ext_equal]
pub ghost struct AcuteState {
    pub phase: AcutePhase,
    pub position: int,
    pub freed_total: u64,
    pub grant_spent: u64,
    pub deleted: Seq<int>,
}

impl View for AcuteRun {
    type V = AcuteState;

    open spec fn view(&self) -> AcuteState {
        AcuteState {
            phase: self.phase,
            position: self.position as int,
            freed_total: self.freed_total,
            grant_spent: self.grant_spent,
            deleted: indices(self.deleted@),
        }
    }
}

/// What the phase works on.
pub ghost struct AcuteTask {
    pub candidates: Seq<CandidateView>,
    pub free: u64,
    pub target: u64,
    pub grant: Option<Grant>,
    pub home: Seq<char>,
}

pub open spec fn plus(a: u64, b: u64) -> u64 {
    if a + b <= u64::MAX {
        (a + b) as u64
    } else {
        u64::MAX
    }
}

/// The free space to trust: the lower of the reading and what the removals should have given.
pub open spec fn trusted_free(t: AcuteTask, s: AcuteState, reading: Option<u64>) -> u64 {
    let projection = plus(t.free, s.freed_total);
    match reading {
        Some(f) => if f < projection {
            f
        } else {
            projection
        },
        None => projection,
    }
}

/// On to the candidate at a position, or to the end.
pub open spec fn turn_to(t: AcuteTask, s: AcuteState, position: int) -> AcuteState {
    AcuteState {
        phase: if position < t.candidates.len() {
            AcutePhase::Reading
        } else {
            AcutePhase::Finished
        },
        position,
        ..s
    }
}

/// What the grant says to the candidate at the current position; without a grant nothing is
/// held back.
pub open spec fn granted(t: AcuteTask, s: AcuteState) -> GrantDecision {
    match t.grant {
        Some(g) => {
            let c = t.candidates[s.position];
            ruling(
                g,
                c.consequences,
                c.confidence,
                c.size_bytes,
                c.path,
                s.grant_spent,
                t.home,
            )
        },
        None => GrantDecision::Allow,
    }
}

pub open spec fn acute_start(t: AcuteTask, ask: bool) -> AcuteState {
    let s = AcuteState {
        phase: AcutePhase::Consent,
        position: 0,
        freed_total: 0,
        grant_spent: 0,
        deleted: Seq::empty(),
    };
    if ask {
        s
    } else {
        turn_to(t, s, 0)
    }
}

/// The state after an event. An event that the phase does not wait for changes nothing.
pub open spec fn acute_step(t: AcuteTask, s: AcuteState, e: AcuteEvent) -> AcuteState {
    match (s.phase, e) {
        (AcutePhase::Consent, AcuteEvent::Consent(yes)) => if yes {
            turn_to(t, s, 0)
        } else {
            AcuteState { phase: AcutePhase::Finished, ..s }
        },
        (AcutePhase::Reading, AcuteEvent::Free(reading)) => {
            if trusted_free(t, s, reading) >= t.target {
                AcuteState { phase: AcutePhase::Finished, ..s }
            } else if !zero_loss(t.candidates[s.position].recovery_class()) {
                turn_to(t, s, s.position + 1)
            } else {
                AcuteState { phase: AcutePhase::Checking, ..s }
            }
        },
        (AcutePhase::Checking, AcuteEvent::Checked(safe)) => {
            if !safe || granted(t, s) != GrantDecision::Allow {
                turn_to(t, s, s.position + 1)
            } else {
                AcuteState {
                    phase: AcutePhase::Removing,
                    grant_spent: if t.grant is Some {
                        plus(s.grant_spent, t.candidates[s.position].size_bytes)
                    } else {
                        s.grant_spent
                    },
                    ..s
                }
            }
        },
        (AcutePhase::Removing, AcuteEvent::Removed(ok)) => {
            if ok {
                turn_to(
                    t,
                    AcuteState {
                        freed_total: plus(
                            s.freed_total,
                            t.candidates[s.position].size_bytes,
                        ),
                        deleted: s.deleted.push(s.position),
                        ..s
                    },
                    s.position + 1,
                )
            } else {
                turn_to(t, s, s.position + 1)
            }
        },
        _ => s,
    }
}

/// What the caller is to do next.
#[derive(Debug, Clone, Copy, PartialEq, Eq, Structural)]
pub enum AcuteAction {
    /// Ask for consent to delete these candidates.
    AskConsent,
    ReadFree,
    /// Check the candidate at a position.
    Check(usize),
    /// Delete the candidate at a position.
    Remove(usize),
    Finish,
}

impl AcuteRun {
    /// The current position is that of a candidate, unless the phase is over.
    pub open spec fn wf(self) -> bool {
        &&& self.position <= self.candidates@.len()
        &&& (self.phase == AcutePhase::Reading || self.phase == AcutePhase::Checking || self.phase
            == AcutePhase::Removing) ==> self.position < self.candidates@.len()
    }

    pub open spec fn action(self) -> AcuteAction {
        match self.phase {
            AcutePhase::Consent => AcuteAction::AskConsent,
            AcutePhase::Reading => AcuteAction::ReadFree,
            AcutePhase::Checking => AcuteAction::Check(self.position),
            AcutePhase::Removing => AcuteAction::Remove(self.position),
            AcutePhase::Finished => AcuteAction::Finish,
        }
    }

    /// What the caller is to do next.
    pub fn next_action(&self) -> (r: AcuteAction)
        ensures
            r == self.action(),
    {
        match self.phase {
            AcutePhase::Consent => AcuteAction::AskConsent,
            AcutePhase::Reading => AcuteAction::ReadFree,
            AcutePhase::Checking => AcuteAction::Check(self.position),
            AcutePhase::Removing => AcuteAction::Remove(self.position),
            AcutePhase::Finished => AcuteAction::Finish,
        }
    }

    fn advance_to(&mut self, position: usize)
        requires
            position <= old(self).candidates@.len(),
        ensures
            final(self).wf(),
            final(self).candidates == old(self).candidates,
            final(self)@ == (AcuteState {
                phase: if position < old(self).candidates@.len() {
                    AcutePhase::Reading
                } else {
                    AcutePhase::Finished
                },
                position: position as int,
                ..old(self)@
            }),
    {
        self.position = position;
        if position < self.candidates.len() {
            self.phase = AcutePhase::Reading;
        } else {
            self.phase = AcutePhase::Finished;
        }
    }
}

/// A person has to consent where one is there and no grant speaks for the run. Grants count
/// only where actuation is on.
pub open spec fn consent_needed(ctx: Context, actuation: bool, has_grant: bool) -> bool {
    ctx.interactive() && !(actuation && has_grant)
}

pub fn needs_consent(ctx: &Context, actuation: bool, has_grant: bool) -> (r: bool)
    ensures
        r == consent_needed(*ctx, actuation, has_grant),
{
    !ctx.json && !ctx.yes && !(actuation && has_grant)
}

/// The bytes that a person is asked to give up: those of all candidates that lose nothing.
pub fn consent_total(candidates: &Vec<Candidate>) -> (r: u128)
    ensures
        r == total_size(harmless(candidate_views(candidates@))),
{
    let kept: Vec<Candidate> = acute_candidates(candidates);
    total_bytes(&kept)
}

/// What the acute phase works through: the candidates that lose nothing, the safest first.
pub open spec fn acute_work(v: Seq<CandidateView>) -> Seq<CandidateView> {
    safest_first(harmless(v))
}

/// Starts the acute phase over what it may remove of some candidates.
pub fn acute_begin(all: &Vec<Candidate>, ask: bool) -> (r: AcuteRun)
    ensures
        r.wf(),
        candidate_views(r.candidates@) == acute_work(candidate_views(all@)),
        forall|t: AcuteTask|
            t.candidates == acute_work(candidate_views(all@)) ==> r@ == #[trigger] acute_start(
                t,
                ask,
            ),
{
    let kept: Vec<Candidate> = acute_candidates(all);
    let mut run: AcuteRun = AcuteRun {
        candidates: acute_order(&kept),
        phase: AcutePhase::Consent,
        position: 0,
        freed_total: 0,
        grant_spent: 0,
        deleted: Vec::new(),
    };
    assert(candidate_views(run.candidates@).len() == run.candidates@.len());
    assert(indices(run.deleted@) =~= Seq::<int>::empty());
    if !ask {
        run.advance_to(0);
    }
    run
}

fn saturating(a: u64, b: u64) -> (r: u64)
    ensures
        r == plus(a, b),
{
    if a <= u64::MAX - b {
        a + b
    } else {
        u64::MAX
    }
}

pub open spec fn task_of(
    candidates: Seq<Candidate>,
    free: u64,
    target: u64,
    grant: Option<&Grant>,
    home: Seq<char>,
) -> AcuteTask {
    AcuteTask {
        candidates: candidate_views(candidates),
        free,
        target,
        grant: match grant {
            Some(g) => Some(*g),
            None => None,
        },
        home,
    }
}

/// Takes an event in; tells which bound of the grant held the current candidate back, if one
/// did.
pub fn acute_reclaim(
    run: &mut AcuteRun,
    event: AcuteEvent,
    free: u64,
    target: u64,
    grant: Option<&Grant>,
    home: &str,
) -> (denied: Option<Denial>)
    requires
        old(run).wf(),
    ensures
        final(run).wf(),
        final(run).candidates == old(run).candidates,
        final(run)@ == acute_step(
            task_of(old(run).candidates@, free, target, grant, home@),
            old(run)@,
            event,
        ),
        denied == (match (old(run).phase, event, granted(
            task_of(old(run).candidates@, free, target, grant, home@),
            old(run)@,
        )) {
            (AcutePhase::Checking, AcuteEvent::Checked(true), GrantDecision::Deny(d)) => Some(d),
            _ => None,
        }),
{
    let ghost t = task_of(run.candidates@, free, target, grant, home@);
    let ghost before = run@;
    assert(t.candidates.len() == run.candidates.len());
    let at: usize = run.position;
    match (run.phase, event) {
        (AcutePhase::Consent, AcuteEvent::Consent(yes)) => {
            if yes {
                run.advance_to(0);
            } else {
                run.phase = AcutePhase::Finished;
            }
            None
        },
        (AcutePhase::Reading, AcuteEvent::Free(reading)) => {
            assert(t.candidates[at as int] == run.candidates@[at as int]@);
            let projection: u64 = saturating(free, run.freed_total);
            let trusted: u64 = match reading {
                Some(f) => if f < projection {
                    f
                } else {
                    projection
                },
                None => projection,
            };
            if trusted >= target {
                run.phase = AcutePhase::Finished;
            } else if !is_acute_safe_class(candidate_recovery_class(&run.candidates[at])) {
                run.advance_to(at + 1);
            } else {
                run.phase = AcutePhase::Checking;
            }
            None
        },
        (AcutePhase::Checking, AcuteEvent::Checked(safe)) => {
            let c: &Candidate = &run.candidates[at];
            assert(t.candidates[at as int] == c@);
            if !safe {
                run.advance_to(at + 1);
                return None;
            }
            if let Some(g) = grant {
                let cons: Option<&crate::model::Consequences> = match &c.consequences {
                    Some(k) => Some(k),
                    None => None,
                };
                let ruled: GrantDecision = allows(
                    g,
                    cons,
                    c.confidence,
                    c.size_bytes,
                    c.path.as_str(),
                    run.grant_spent,
                    home,
                );
                assert(ruled == granted(t, before));
                if let GrantDecision::Deny(d) = ruled {
                    run.advance_to(at + 1);
                    return Some(d);
                }
                let size: u64 = run.candidates[at].size_bytes;
                run.grant_spent = saturating(run.grant_spent, size);
            }
            run.phase = AcutePhase::Removing;
            None
        },
        (AcutePhase::Removing, AcuteEvent::Removed(ok)) => {
            assert(t.candidates[at as int] == run.candidates@[at as int]@);
            if ok {
                let size: u64 = run.candidates[at].size_bytes;
                run.freed_total = saturating(run.freed_total, size);
                run.deleted.push(at);
                assert(indices(run.deleted@) =~= before.deleted.push(at as int));
            }
            run.advance_to(at + 1);
            None
        },
        _ => None,
    }
}

// ---------------------------------------------------------------------------
// Receipts
// ---------------------------------------------------------------------------
pub open spec fn emergency_receipt(c: CandidateView, free: u64, ts: i64) -> ReceiptView {
    ReceiptView {
        ts,
        command: ActionKind::Doctor,
        candidate_id: Some(c.id),
        rule_id: Some(c.rule_id),
        path: c.path,
        size_bytes: c.size_bytes,
        df_before: Some(free),
        df_after: None,
        actually_freed: None,
        reversible: false,
        undo_cmd: None,
        rule_confidence: Some(c.confidence),
        context: seq![("phase"@, "acute"@), ("recovery_class"@, c.recovery_class())],
    }
}

/// The receipt of a removal in the acute phase; it names the class that allowed it.
pub fn acute_receipt(c: &Candidate, free: u64, ts: i64) -> (r: Entry)
    ensures
        r@ == emergency_receipt(c@, free, ts),
{
    let mut context: Vec<(String, String)> = Vec::new();
    context.push(("phase".to_owned(), "acute".to_owned()));
    context.push(("recovery_class".to_owned(), candidate_recovery_class(c).to_owned()));
    assert(context_view(context@) =~= seq![
        ("phase"@, "acute"@),
        ("recovery_class"@, c@.recovery_class()),
    ]);
    Entry {
        ts,
        command: ActionKind::Doctor,
        candidate_id: Some(c.id.as_str().to_owned()),
        rule_id: Some(c.rule_id.as_str().to_owned()),
        path: c.path.as_str().to_owned(),
        size_bytes: c.size_bytes,
        df_before: Some(free),
        df_after: None,
        actually_freed: None,
        reversible: false,
        undo_cmd: None,
        rule_confidence: Some(c.confidence),
        context,
    }
}

} // verus!
