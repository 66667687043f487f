//! Deleting the surest candidates in one go.

#[allow(unused_imports)]
use crate::airlock::given;
use crate::detect::pick;
use crate::grant::{allows, Denial, Grant, GrantDecision};
#[allow(unused_imports)]
use crate::grant::ruling;
use crate::model::{Candidate, CheckResult, Consequences, Context, IMMEDIATE_THRESHOLD};
#[allow(unused_imports)]
use crate::model::{candidate_views, CandidateView, CheckView, StepView};
use crate::order::marked_positions;
#[allow(unused_imports)]
use crate::order::{arranged, indices, lemma_marked, lemma_stable_order, marked};
use crate::report::rank_positions;
#[allow(unused_imports)]
use crate::report::{rank_keys, rank_order, rank_orders_by_score_and_risk, ranked};
use vstd::prelude::*;

verus! {

/// The confidence from which a candidate is deleted without further consent.
pub const MIN_CONFIDENCE: u32 = IMMEDIATE_THRESHOLD;

// ---------------------------------------------------------------------------
// Selection
// ---------------------------------------------------------------------------
pub open spec fn sure_flags(v: Seq<CandidateView>, unsafe_confidence: bool) -> Seq<bool> {
    v.map_values(|c: CandidateView| unsafe_confidence || c.confidence >= MIN_CONFIDENCE)
}

/// The positions of the sure candidates, by rank; all are sure where a low confidence is
/// accepted.
pub open spec fn sure_order(v: Seq<CandidateView>, unsafe_confidence: bool) -> Seq<int> {
    let order = rank_order(v);
    arranged(order, marked(sure_flags(arranged(v, order), unsafe_confidence)))
}

/// The top candidates that are sure enough, best first.
pub open spec fn picked(v: Seq<CandidateView>, unsafe_confidence: bool, top: nat) -> Seq<int> {
    let m = sure_order(v, unsafe_confidence);
    if m.len() > top {
        m.take(top as int)
    } else {
        m
    }
}

/// The positions `order[i]` for the positions `i` of `at`.
fn places(order: &Vec<usize>, at: &Vec<usize>) -> (r: Vec<usize>)
    requires
        forall|k: int| 0 <= k < at@.len() ==> #[trigger] at@[k] < order@.len(),
    ensures
        indices(r@) == arranged(indices(order@), indices(at@)),
        r@.len() == at@.len(),
        forall|k: int| 0 <= k < r@.len() ==> #[trigger] r@[k] == order@[at@[k] as int],
{
    let mut out: Vec<usize> = Vec::new();
    let mut i: usize = 0;
    while i < at.len()
        invariant
            i <= at@.len(),
            out@.len() == i,
            forall|k: int| 0 <= k < at@.len() ==> #[trigger] at@[k] < order@.len(),
            forall|k: int| 0 <= k < i ==> #[trigger] out@[k] == order@[at@[k] as int],
        decreases at.len() - i,
    {
        out.push(order[at[i]]);
        i += 1;
    }
    assert(indices(out@) =~= arranged(indices(order@), indices(at@)));
    out
}

pub fn pick_candidates(v: &Vec<Candidate>, unsafe_confidence: bool, top: usize) -> (r: Vec<usize>)
    ensures
        indices(r@) == picked(candidate_views(v@), unsafe_confidence, top as nat),
        forall|k: int| 0 <= k < r@.len() ==> #[trigger] r@[k] < v@.len(),
{
    let order: Vec<usize> = rank_positions(v);
    let mut flags: Vec<bool> = Vec::new();
    let mut i: usize = 0;
    while i < order.len()
        invariant
            i <= order@.len(),
            flags@.len() == i,
            forall|k: int| 0 <= k < order@.len() ==> #[trigger] order@[k] < v@.len(),
            forall|j: int|
                0 <= j < i ==> #[trigger] flags@[j] == (unsafe_confidence
                    || v@[order@[j] as int].confidence >= MIN_CONFIDENCE),
        decreases order.len() - i,
    {
        flags.push(unsafe_confidence || v[order[i]].confidence >= MIN_CONFIDENCE);
        i += 1;
    }
    assert(flags@ =~= sure_flags(
        arranged(candidate_views(v@), indices(order@)),
        unsafe_confidence,
    ));
    let sure: Vec<usize> = marked_positions(&flags);
    let mut out: Vec<usize> = places(&order, &sure);
    let ghost all = indices(out@);
    assert(all.len() == out@.len());
    if out.len() > top {
        out.truncate(top);
        assert(indices(out@) =~= all.take(top as int));
    }
    out
}

pub proof fn lemma_sure_order(v: Seq<CandidateView>, unsafe_confidence: bool)
    ensures
        forall|k: int|
            0 <= k < sure_order(v, unsafe_confidence).len() ==> 0 <= #[trigger] sure_order(
                v,
                unsafe_confidence,
            )[k] < v.len() && (unsafe_confidence || v[sure_order(
                v,
                unsafe_confidence,
            )[k]].confidence >= MIN_CONFIDENCE),
        forall|a: int, b: int|
            0 <= a < b < sure_order(v, unsafe_confidence).len() ==> v[#[trigger] sure_order(
                v,
                unsafe_confidence,
            )[a]].score() >= v[#[trigger] sure_order(v, unsafe_confidence)[b]].score(),
        forall|i: int|
            0 <= i < v.len() && (unsafe_confidence || v[i].confidence >= MIN_CONFIDENCE)
                ==> #[trigger] sure_order(v, unsafe_confidence).contains(i),
{
    let order = rank_order(v);
    let w = arranged(v, order);
    let flags = sure_flags(w, unsafe_confidence);
    let (m, r) = (marked(flags), sure_order(v, unsafe_confidence));
    lemma_stable_order(rank_keys(v));
    lemma_marked(flags);
    assert(w =~= ranked(v));
    assert forall|k: int| 0 <= k < r.len() implies 0 <= #[trigger] r[k] < v.len() && (
    unsafe_confidence || v[r[k]].confidence >= MIN_CONFIDENCE) by {
        assert(flags[m[k]] && r[k] == order[m[k]]);
        assert(w[m[k]] == v[order[m[k]]]);
    }
    assert forall|a: int, b: int| 0 <= a < b < r.len() implies v[#[trigger] r[a]].score()
        >= v[#[trigger] r[b]].score() by {
        assert(m[a] < m[b]);
        assert(r[a] == order[m[a]] && r[b] == order[m[b]]);
        rank_orders_by_score_and_risk(v, m[a], m[b]);
    }
    assert forall|i: int|
        0 <= i < v.len() && (unsafe_confidence || v[i].confidence
            >= MIN_CONFIDENCE) implies #[trigger] r.contains(i) by {
        assert(order.contains(i));
        let q = order.index_of(i);
        assert(w[q] == v[i] && flags[q]);
        assert(m.contains(q));
        let t = m.index_of(q);
        assert(r[t] == i);
    }
}

/// Without an override nothing below the floor is picked, and never more than was asked for.
pub proof fn picked_are_sure(v: Seq<CandidateView>, top: nat, k: int)
    requires
        0 <= k < picked(v, false, top).len(),
    ensures
        0 <= picked(v, false, top)[k] < v.len(),
        v[picked(v, false, top)[k]].confidence >= MIN_CONFIDENCE,
        picked(v, false, top).len() <= top,
{
    lemma_sure_order(v, false);
    assert(picked(v, false, top)[k] == sure_order(v, false)[k]);
}

/// The picks are the best: none that is sure and left out scores higher than one that is picked.
pub proof fn picked_are_the_best(
    v: Seq<CandidateView>,
    unsafe_confidence: bool,
    top: nat,
    k: int,
    left: int,
)
    requires
        0 <= k < picked(v, unsafe_confidence, top).len(),
        0 <= left < v.len(),
        unsafe_confidence || v[left].confidence >= MIN_CONFIDENCE,
        !picked(v, unsafe_confidence, top).contains(left),
    ensures
        v[picked(v, unsafe_confidence, top)[k]].score() >= v[left].score(),
{
    lemma_sure_order(v, unsafe_confidence);
    let (p, m) = (picked(v, unsafe_confidence, top), sure_order(v, unsafe_confidence));
    assert(m.contains(left));
    let t = m.index_of(left);
    assert(p[k] == m[k]);
    if t < p.len() {
        assert(p[t] == left);
    }
}

// ---------------------------------------------------------------------------
// Blocked candidates
// ---------------------------------------------------------------------------
/// The note of the first step that failed.
pub open spec fn first_failure(steps: Seq<StepView>) -> Option<Seq<char>>
    decreases steps.len(),
{
    if steps.len() == 0 {
        None
    } else if !steps[0].passed {
        Some(steps[0].note)
    } else {
        first_failure(steps.drop_first())
    }
}

pub open spec fn block_note(r: CheckView) -> Seq<char> {
    match first_failure(r.steps) {
        Some(n) => n,
        None => "blocked"@,
    }
}

/// Why a check blocks its path: the note of the first step that failed.
pub fn blocked_note(r: &CheckResult) -> (n: String)
    ensures
        n@ == block_note(r@),
{
    let ghost w = r@.steps;
    let mut i: usize = 0;
    assert(w.skip(0) =~= w);
    while i < r.steps.len()
        invariant
            i <= r.steps@.len(),
            w == r@.steps,
            first_failure(w) == first_failure(w.skip(i as int)),
        decreases r.steps.len() - i,
    {
        assert(w.skip(i as int)[0] == r.steps@[i as int]@);
        assert(w.skip(i as int).drop_first() =~= w.skip(i + 1));
        if !r.steps[i].passed {
            return r.steps[i].note.as_str().to_owned();
        }
        i += 1;
    }
    "blocked".to_owned()
}

// ---------------------------------------------------------------------------
// The grant
// ---------------------------------------------------------------------------
/// What a grant leaves of a list of candidates.
#[verifier::ext_equal]
pub ghost struct SiftView {
    /// The positions of those that stay.
    pub kept: Seq<int>,
    /// Those of them that only the grant allows.
    pub acted: Seq<int>,
    /// Those that it denies, each with the reason.
    pub denied: Seq<(int, Denial)>,
    /// The bytes that it has allowed.
    pub spent: u64,
}

#[derive(Debug)]
pub struct Sift {
    pub kept: Vec<usize>,
    pub acted: Vec<usize>,
    pub denied: Vec<(usize, Denial)>,
    pub spent: u64,
}

pub open spec fn denials(v: Seq<(usize, Denial)>) -> Seq<(int, Denial)> {
    v.map_values(|p: (usize, Denial)| (p.0 as int, p.1))
}

impl View for Sift {
    type V = SiftView;

    open spec fn view(&self) -> SiftView {
        SiftView {
            kept: indices(self.kept@),
            acted: indices(self.acted@),
            denied: denials(self.denied@),
            spent: self.spent,
        }
    }
}

pub open spec fn more(a: u64, b: u64) -> u64 {
    if a + b <= u64::MAX {
        (a + b) as u64
    } else {
        u64::MAX
    }
}

/// Sifts candidates by a grant: those above the floor stay; those below it stay where the grant
/// allows them, its bytes counted over all of them.
pub open spec fn sifted(v: Seq<CandidateView>, g: Grant, home: Seq<char>) -> SiftView
    decreases v.len(),
{
    if v.len() == 0 {
        SiftView { kept: Seq::empty(), acted: Seq::empty(), denied: Seq::empty(), spent: 0 }
    } else {
        let s = sifted(v.drop_last(), g, home);
        let (i, c) = (v.len() - 1, v.last());
        if c.confidence >= MIN_CONFIDENCE {
            SiftView { kept: s.kept.push(i), ..s }
        } else {
            match ruling(g, c.consequences, c.confidence, c.size_bytes, c.path, s.spent, home) {
                GrantDecision::Allow => SiftView {
                    kept: s.kept.push(i),
                    acted: s.acted.push(i),
                    spent: more(s.spent, c.size_bytes),
                    ..s
                },
                GrantDecision::Deny(d) => SiftView { denied: s.denied.push((i, d)), ..s },
            }
        }
    }
}

pub fn sift_by_grant(v: &Vec<Candidate>, g: &Grant, home: &str) -> (r: Sift)
    ensures
        r@ == sifted(candidate_views(v@), *g, home@),
{
    let ghost w = candidate_views(v@);
    let mut s: Sift = Sift {
        kept: Vec::new(),
        acted: Vec::new(),
        denied: Vec::new(),
        spent: 0,
    };
    let mut i: usize = 0;
    assert(w.take(0) =~= Seq::<CandidateView>::empty());
    assert(s@ =~= sifted(w.take(0), *g, home@));
    while i < v.len()
        invariant
            i <= v@.len(),
            w == candidate_views(v@),
            s@ == sifted(w.take(i as int), *g, home@),
        decreases v.len() - i,
    {
        let c: &Candidate = &v[i];
        let ghost was = s@;
        proof {
            assert(w.take(i + 1).drop_last() =~= w.take(i as int));
            assert(w.take(i + 1).last() == c@);
        }
        if c.confidence >= MIN_CONFIDENCE {
            s.kept.push(i);
            assert(indices(s.kept@) =~= was.kept.push(i as int));
        } else {
            let cons: Option<&Consequences> = match &c.consequences {
                Some(k) => Some(k),
                None => None,
            };
            let ruled: GrantDecision = allows(
                g,
                cons,
                c.confidence,
                c.size_bytes,
                c.path.as_str(),
                s.spent,
                home,
            );
            match ruled {
                GrantDecision::Allow => {
                    s.kept.push(i);
                    s.acted.push(i);
                    s.spent = if s.spent <= u64::MAX - c.size_bytes {
                        s.spent + c.size_bytes
                    } else {
                        u64::MAX
                    };
                    assert(indices(s.kept@) =~= was.kept.push(i as int));
                    assert(indices(s.acted@) =~= was.acted.push(i as int));
                },
                GrantDecision::Deny(d) => {
                    s.denied.push((i, d));
                    assert(denials(s.denied@) =~= was.denied.push((i as int, d)));
                },
            }
        }
        i += 1;
    }
    assert(w.take(i as int) =~= w);
    s
}

/// The bytes of the candidates at some positions.
pub open spec fn bytes_of_positions(v: Seq<CandidateView>, picks: Seq<int>) -> nat
    decreases picks.len(),
{
    if picks.len() == 0 {
        0
    } else {
        bytes_of_positions(v, picks.drop_last()) + v[picks.last()].size_bytes as nat
    }
}

proof fn lemma_positions_prefix(v: Seq<CandidateView>, picks: Seq<int>)
    requires
        v.len() > 0,
        forall|k: int| 0 <= k < picks.len() ==> 0 <= #[trigger] picks[k] < v.len() - 1,
    ensures
        bytes_of_positions(v, picks) == bytes_of_positions(v.drop_last(), picks),
    decreases picks.len(),
{
    if picks.len() > 0 {
        let n = picks.len() - 1;
        assert(picks.last() == picks[n]);
        assert(v.drop_last()[picks[n]] == v[picks[n]]);
        assert forall|k: int| 0 <= k < picks.drop_last().len() implies 0
            <= #[trigger] picks.drop_last()[k] < v.len() - 1 by {
            assert(picks.drop_last()[k] == picks[k]);
        }
        lemma_positions_prefix(v, picks.drop_last());
    }
}

proof fn lemma_sifted(v: Seq<CandidateView>, g: Grant, home: Seq<char>)
    ensures
        sifted(v, g, home).spent <= g.max_bytes,
        bytes_of_positions(v, sifted(v, g, home).acted) == sifted(v, g, home).spent,
        forall|k: int|
            0 <= k < sifted(v, g, home).acted.len() ==> 0 <= #[trigger] sifted(
                v,
                g,
                home,
            ).acted[k] < v.len(),
    decreases v.len(),
{
    if v.len() > 0 {
        let d = v.drop_last();
        lemma_sifted(d, g, home);
        let (s, r) = (sifted(d, g, home), sifted(v, g, home));
        assert forall|k: int| 0 <= k < s.acted.len() implies 0 <= #[trigger] s.acted[k] < v.len()
            - 1 by {}
        lemma_positions_prefix(v, s.acted);
        assert forall|k: int| 0 <= k < r.acted.len() implies 0 <= #[trigger] r.acted[k]
            < v.len() by {
            if k < s.acted.len() {
                assert(r.acted[k] == s.acted[k]);
            }
        }
        if r.acted != s.acted {
            assert(r.acted.drop_last() =~= s.acted);
        }
    }
}

/// What only a grant allows stays, all together, within its byte limit, and the grant is charged for
/// just that.
pub proof fn grant_bounds_the_whole_batch(v: Seq<CandidateView>, g: Grant, home: Seq<char>)
    ensures
        bytes_of_positions(v, sifted(v, g, home).acted) <= g.max_bytes,
        bytes_of_positions(v, sifted(v, g, home).acted) == sifted(v, g, home).spent,
{
    lemma_sifted(v, g, home);
}

// ---------------------------------------------------------------------------
// Typed consent
// ---------------------------------------------------------------------------
pub open spec fn low_flags(v: Seq<CandidateView>, unsafe_confidence: bool, granted: bool) -> Seq<
    bool,
> {
    v.map_values(
        |c: CandidateView| unsafe_confidence && !granted && c.confidence < MIN_CONFIDENCE,
    )
}

/// The candidates whose ids have to be typed again: those below the floor, where a low
/// confidence is accepted at all and no grant has settled the batch.
pub fn typed_consent_needed(v: &Vec<Candidate>, unsafe_confidence: bool, granted: bool) -> (r: Vec<
    usize,
>)
    ensures
        indices(r@) == marked(low_flags(candidate_views(v@), unsafe_confidence, granted)),
        forall|k: int| 0 <= k < r@.len() ==> #[trigger] r@[k] < v@.len(),
{
    let asked: bool = unsafe_confidence && !granted;
    let mut flags: Vec<bool> = Vec::new();
    let mut i: usize = 0;
    while i < v.len()
        invariant
            i <= v@.len(),
            flags@.len() == i,
            forall|j: int|
                0 <= j < i ==> #[trigger] flags@[j] == (asked && v@[j].confidence
                    < MIN_CONFIDENCE),
        decreases v.len() - i,
    {
        flags.push(asked && v[i].confidence < MIN_CONFIDENCE);
        i += 1;
    }
    assert(flags@ =~= low_flags(candidate_views(v@), unsafe_confidence, granted));
    marked_positions(&flags)
}

// ---------------------------------------------------------------------------
// The run
// ---------------------------------------------------------------------------
/// How a run ends.
#[derive(Debug, Clone, Copy, PartialEq, Eq, Structural)]
pub enum ReclaimEnd {
    /// No candidate is sure enough.
    NoCandidates,
    /// The check blocked every pick.
    AllBlocked,
    /// The deletion was not confirmed.
    Aborted,
    /// An id was not typed again.
    IdMismatch,
    /// Every deletion was tried.
    Done,
}

/// What has to be done next; a number is the position of a candidate.
#[derive(Debug, Clone, Copy, PartialEq, Eq, Structural)]
pub enum ReclaimAction {
    Check(usize),
    AskConfirm,
    AskTypedId(usize),
    Delete(usize),
    Finish(ReclaimEnd),
}

/// What came of an action.
#[derive(Debug, Clone, Copy, PartialEq, Eq, Structural)]
pub enum ReclaimEvent {
    /// The check found the path safe, or not.
    Checked(bool),
    /// The deletion was confirmed, or not.
    Confirmed(bool),
    /// The id was typed again, rightly or not.
    Typed(bool),
    /// The path was deleted, or not.
    Deleted(bool),
}

pub ghost enum ReclaimStep {
    Check(int),
    AskConfirm,
    AskTypedId(int),
    Delete(int),
    Finish(ReclaimEnd),
}

impl View for ReclaimAction {
    type V = ReclaimStep;

    open spec fn view(&self) -> ReclaimStep {
        match self {
            ReclaimAction::Check(i) => ReclaimStep::Check(*i as int),
            ReclaimAction::AskConfirm => ReclaimStep::AskConfirm,
            ReclaimAction::AskTypedId(i) => ReclaimStep::AskTypedId(*i as int),
            ReclaimAction::Delete(i) => ReclaimStep::Delete(*i as int),
            ReclaimAction::Finish(end) => ReclaimStep::Finish(*end),
        }
    }
}

#[verifier::ext_equal]
pub ghost struct ReclaimView {
    pub picks: Seq<int>,
    pub survivors: Seq<int>,
    pub blocked: Seq<int>,
    pub kept: Seq<int>,
    pub acted: Seq<int>,
    pub denied: Seq<(int, Denial)>,
    pub low: Seq<int>,
    pub deleted: Seq<int>,
    pub at: nat,
    pub next: ReclaimStep,
}

/// A reclaim under way. Its lists hold positions of candidates.
#[derive(Debug)]
pub struct ReclaimRun {
    /// What was picked, best first.
    pub picks: Vec<usize>,
    /// The picks that the check found safe.
    pub survivors: Vec<usize>,
    /// The picks that it did not.
    pub blocked: Vec<usize>,
    /// The survivors that are to be deleted.
    pub kept: Vec<usize>,
    /// Those of them that only the grant allows.
    pub acted: Vec<usize>,
    /// The survivors that the grant denies, each with the reason.
    pub denied: Vec<(usize, Denial)>,
    /// Those to be deleted whose ids have to be typed again.
    pub low: Vec<usize>,
    /// What has been deleted.
    pub deleted: Vec<usize>,
    /// How many picks are checked, ids typed or deletions tried, whichever goes on now.
    pub at: usize,
    pub next: ReclaimAction,
}

impl View for ReclaimRun {
    type V = ReclaimView;

    open spec fn view(&self) -> ReclaimView {
        ReclaimView {
            picks: indices(self.picks@),
            survivors: indices(self.survivors@),
            blocked: indices(self.blocked@),
            kept: indices(self.kept@),
            acted: indices(self.acted@),
            denied: denials(self.denied@),
            low: indices(self.low@),
            deleted: indices(self.deleted@),
            at: self.at as nat,
            next: self.next@,
        }
    }
}

/// Every number is below `n`.
pub open spec fn all_below(s: Seq<int>, n: nat) -> bool {
    forall|k: int| 0 <= k < s.len() ==> 0 <= #[trigger] s[k] < n
}

impl ReclaimView {
    /// Every position is one of `n` candidates, and the next action is about the candidate that
    /// is due.
    pub open spec fn wf(self, n: nat) -> bool {
        &&& all_below(self.picks, n)
        &&& all_below(self.survivors, n)
        &&& all_below(self.kept, n)
        &&& all_below(self.low, n)
        &&& match self.next {
            ReclaimStep::Check(i) => self.at < self.picks.len() && i == self.picks[self.at as int],
            ReclaimStep::AskTypedId(i) => self.at < self.low.len() && i
                == self.low[self.at as int],
            ReclaimStep::Delete(i) => self.at < self.kept.len() && i == self.kept[self.at as int],
            _ => true,
        }
    }
}

impl ReclaimRun {
    pub open spec fn wf(&self, n: nat) -> bool {
        self@.wf(n)
    }
}

pub open spec fn reclaim_start(v: Seq<CandidateView>, top: nat, unsafe_confidence: bool) ->
    ReclaimView {
    let picks = picked(v, unsafe_confidence, top);
    ReclaimView {
        picks,
        survivors: Seq::empty(),
        blocked: Seq::empty(),
        kept: Seq::empty(),
        acted: Seq::empty(),
        denied: Seq::empty(),
        low: Seq::empty(),
        deleted: Seq::empty(),
        at: 0,
        next: if picks.len() == 0 {
            ReclaimStep::Finish(ReclaimEnd::NoCandidates)
        } else {
            ReclaimStep::Check(picks[0])
        },
    }
}

/// The run from its first deletion on.
pub open spec fn deleting(s: ReclaimView) -> ReclaimView {
    ReclaimView {
        at: 0,
        next: if s.kept.len() == 0 {
            ReclaimStep::Finish(ReclaimEnd::Done)
        } else {
            ReclaimStep::Delete(s.kept[0])
        },
        ..s
    }
}

/// What the grant leaves of the survivors; all of them without one.
pub open spec fn after_grant(
    v: Seq<CandidateView>,
    grant: Option<Grant>,
    home: Seq<char>,
    s: ReclaimView,
) -> ReclaimView {
    match grant {
        Some(g) => {
            let f = sifted(arranged(v, s.survivors), g, home);
            ReclaimView {
                kept: arranged(s.survivors, f.kept),
                acted: arranged(s.survivors, f.acted),
                denied: f.denied.map_values(|p: (int, Denial)| (s.survivors[p.0], p.1)),
                ..s
            }
        },
        None => ReclaimView { kept: s.survivors, ..s },
    }
}

/// The positions whose ids have to be typed again.
pub open spec fn low_kept(
    v: Seq<CandidateView>,
    unsafe_confidence: bool,
    granted: bool,
    kept: Seq<int>,
) -> Seq<int> {
    arranged(kept, marked(low_flags(arranged(v, kept), unsafe_confidence, granted)))
}

/// The run once the deletion as a whole is agreed to: the grant rules, then each id that has to
/// be typed again is asked for.
pub open spec fn agreed(
    v: Seq<CandidateView>,
    unsafe_confidence: bool,
    grant: Option<Grant>,
    home: Seq<char>,
    s: ReclaimView,
) -> ReclaimView {
    let g = after_grant(v, grant, home, s);
    let low = low_kept(v, unsafe_confidence, grant is Some, g.kept);
    let t = ReclaimView { low, ..g };
    if low.len() == 0 {
        deleting(t)
    } else {
        ReclaimView { at: 0, next: ReclaimStep::AskTypedId(low[0]), ..t }
    }
}

/// The run once every pick is checked.
pub open spec fn all_checked(
    v: Seq<CandidateView>,
    ctx: Context,
    unsafe_confidence: bool,
    grant: Option<Grant>,
    home: Seq<char>,
    s: ReclaimView,
) -> ReclaimView {
    if s.survivors.len() == 0 {
        ReclaimView { next: ReclaimStep::Finish(ReclaimEnd::AllBlocked), ..s }
    } else if ctx.interactive() {
        ReclaimView { next: ReclaimStep::AskConfirm, ..s }
    } else {
        agreed(v, unsafe_confidence, grant, home, s)
    }
}

/// The run after an event. One that does not answer the last action changes nothing.
pub open spec fn reclaim_next(
    v: Seq<CandidateView>,
    ctx: Context,
    unsafe_confidence: bool,
    grant: Option<Grant>,
    home: Seq<char>,
    s: ReclaimView,
    event: ReclaimEvent,
) -> ReclaimView {
    match (s.next, event) {
        (ReclaimStep::Check(i), ReclaimEvent::Checked(safe)) => {
            let t = if safe {
                ReclaimView { survivors: s.survivors.push(i), at: s.at + 1, ..s }
            } else {
                ReclaimView { blocked: s.blocked.push(i), at: s.at + 1, ..s }
            };
            if t.at < t.picks.len() {
                ReclaimView { next: ReclaimStep::Check(t.picks[t.at as int]), ..t }
            } else {
                all_checked(v, ctx, unsafe_confidence, grant, home, t)
            }
        },
        (ReclaimStep::AskConfirm, ReclaimEvent::Confirmed(yes)) => if yes {
            agreed(v, unsafe_confidence, grant, home, s)
        } else {
            ReclaimView { next: ReclaimStep::Finish(ReclaimEnd::Aborted), ..s }
        },
        (ReclaimStep::AskTypedId(_), ReclaimEvent::Typed(right)) => if !right {
            ReclaimView { next: ReclaimStep::Finish(ReclaimEnd::IdMismatch), ..s }
        } else if s.at + 1 < s.low.len() {
            ReclaimView {
                at: s.at + 1,
                next: ReclaimStep::AskTypedId(s.low[s.at as int + 1]),
                ..s
            }
        } else {
            deleting(s)
        },
        (ReclaimStep::Delete(i), ReclaimEvent::Deleted(done)) => {
            let t = if done {
                ReclaimView { deleted: s.deleted.push(i), at: s.at + 1, ..s }
            } else {
                ReclaimView { at: s.at + 1, ..s }
            };
            if t.at < t.kept.len() {
                ReclaimView { next: ReclaimStep::Delete(t.kept[t.at as int]), ..t }
            } else {
                ReclaimView { next: ReclaimStep::Finish(ReclaimEnd::Done), ..t }
            }
        },
        _ => s,
    }
}

proof fn lemma_sifted_positions(v: Seq<CandidateView>, g: Grant, home: Seq<char>)
    ensures
        all_below(sifted(v, g, home).kept, v.len()),
        all_below(sifted(v, g, home).acted, v.len()),
        forall|k: int|
            0 <= k < sifted(v, g, home).denied.len() ==> 0 <= (#[trigger] sifted(
                v,
                g,
                home,
            ).denied[k]).0 < v.len(),
    decreases v.len(),
{
    if v.len() > 0 {
        lemma_sifted_positions(v.drop_last(), g, home);
        let (s, r) = (sifted(v.drop_last(), g, home), sifted(v, g, home));
        assert forall|k: int| 0 <= k < r.kept.len() implies 0 <= #[trigger] r.kept[k]
            < v.len() by {
            if k < s.kept.len() {
                assert(r.kept[k] == s.kept[k]);
            }
        }
        assert forall|k: int| 0 <= k < r.acted.len() implies 0 <= #[trigger] r.acted[k]
            < v.len() by {
            if k < s.acted.len() {
                assert(r.acted[k] == s.acted[k]);
            }
        }
        assert forall|k: int| 0 <= k < r.denied.len() implies 0 <= (#[trigger] r.denied[k]).0
            < v.len() by {
            if k < s.denied.len() {
                assert(r.denied[k] == s.denied[k]);
            }
        }
    }
}

impl ReclaimRun {
    fn start_deleting(&mut self, n: Ghost<nat>)
        requires
            all_below(old(self)@.picks, n@),
            all_below(old(self)@.survivors, n@),
            all_below(old(self)@.kept, n@),
            all_below(old(self)@.low, n@),
        ensures
            final(self).wf(n@),
            final(self)@ == deleting(old(self)@),
    {
        self.at = 0;
        self.next = if self.kept.len() == 0 {
            ReclaimAction::Finish(ReclaimEnd::Done)
        } else {
            ReclaimAction::Delete(self.kept[0])
        };
    }

    /// Lets the grant rule on the survivors.
    fn rule(&mut self, v: &Vec<Candidate>, grant: Option<&Grant>, home: &str)
        requires
            old(self).wf(v@.len()),
        ensures
            all_below(final(self)@.kept, v@.len()),
            final(self)@ == after_grant(
                candidate_views(v@),
                given(grant),
                home@,
                old(self)@,
            ),
    {
        let ghost was = self@;
        match grant {
            Some(g) => {
                proof {
                    assert forall|k: int| 0 <= k < self.survivors@.len() implies #[trigger]
                    self.survivors@[k] < v@.len() by {
                        assert(was.survivors[k] == self.survivors@[k] as int);
                    }
                }
                let there: Vec<Candidate> = pick(v, &self.survivors);
                let f: Sift = sift_by_grant(&there, g, home);
                let ghost w = arranged(candidate_views(v@), was.survivors);
                proof {
                    lemma_sifted_positions(w, *g, home@);
                    assert(w.len() == self.survivors@.len());
                    assert forall|k: int| 0 <= k < f.kept@.len() implies #[trigger] f.kept@[k]
                        < self.survivors@.len() by {
                        assert(f@.kept[k] == f.kept@[k] as int);
                    }
                    assert forall|k: int| 0 <= k < f.acted@.len() implies #[trigger] f.acted@[k]
                        < self.survivors@.len() by {
                        assert(f@.acted[k] == f.acted@[k] as int);
                    }
                }
                let kept: Vec<usize> = places(&self.survivors, &f.kept);
                let acted: Vec<usize> = places(&self.survivors, &f.acted);
                let mut denied: Vec<(usize, Denial)> = Vec::new();
                let mut i: usize = 0;
                while i < f.denied.len()
                    invariant
                        i <= f.denied@.len(),
                        denied@.len() == i,
                        f@ == sifted(w, *g, home@),
                        w.len() == self.survivors@.len(),
                        self@ == was,
                        forall|k: int|
                            0 <= k < f@.denied.len() ==> 0 <= (#[trigger] f@.denied[k]).0
                                < w.len(),
                        forall|k: int|
                            0 <= k < i ==> #[trigger] denied@[k]
                                == (self.survivors@[f.denied@[k].0 as int], f.denied@[k].1),
                    decreases f.denied.len() - i,
                {
                    assert(f@.denied[i as int].0 == f.denied@[i as int].0 as int);
                    denied.push((self.survivors[f.denied[i].0], f.denied[i].1));
                    i += 1;
                }
                proof {
                    assert(denials(denied@) =~= f@.denied.map_values(
                        |p: (int, Denial)| (was.survivors[p.0], p.1),
                    )) by {
                        assert forall|k: int| 0 <= k < f@.denied.len() implies denials(denied@)[k]
                            == (was.survivors[f@.denied[k].0], f@.denied[k].1) by {
                            assert(f@.denied[k].0 == f.denied@[k].0 as int);
                        }
                    }
                    assert forall|k: int| 0 <= k < kept@.len() implies 0 <= #[trigger] indices(
                        kept@,
                    )[k] < v@.len() by {
                        assert(kept@[k] == self.survivors@[f.kept@[k] as int]);
                        assert(was.survivors[f.kept@[k] as int]
                            == self.survivors@[f.kept@[k] as int] as int);
                    }
                }
                self.kept = kept;
                self.acted = acted;
                self.denied = denied;
            },
            None => {
                let kept: Vec<usize> = copy_positions(&self.survivors);
                self.kept = kept;
            },
        }
    }

    fn agree(
        &mut self,
        v: &Vec<Candidate>,
        unsafe_confidence: bool,
        grant: Option<&Grant>,
        home: &str,
    )
        requires
            old(self).wf(v@.len()),
        ensures
            final(self).wf(v@.len()),
            final(self)@ == agreed(
                candidate_views(v@),
                unsafe_confidence,
                given(grant),
                home@,
                old(self)@,
            ),
    {
        self.rule(v, grant, home);
        let ghost g = self@;
        proof {
            assert forall|k: int| 0 <= k < self.kept@.len() implies #[trigger] self.kept@[k]
                < v@.len() by {
                assert(g.kept[k] == self.kept@[k] as int);
            }
        }
        let there: Vec<Candidate> = pick(v, &self.kept);
        assert(candidate_views(there@).len() == self.kept@.len());
        let at: Vec<usize> = typed_consent_needed(&there, unsafe_confidence, grant.is_some());
        let low: Vec<usize> = places(&self.kept, &at);
        proof {
            assert forall|k: int| 0 <= k < low@.len() implies 0 <= #[trigger] indices(low@)[k]
                < v@.len() by {
                assert(low@[k] == self.kept@[at@[k] as int]);
            }
        }
        self.low = low;
        if self.low.len() == 0 {
            self.start_deleting(Ghost(v@.len()));
        } else {
            self.at = 0;
            self.next = ReclaimAction::AskTypedId(self.low[0]);
        }
    }

    fn checked(
        &mut self,
        v: &Vec<Candidate>,
        ctx: &Context,
        unsafe_confidence: bool,
        grant: Option<&Grant>,
        home: &str,
    )
        requires
            all_below(old(self)@.picks, v@.len()),
            all_below(old(self)@.survivors, v@.len()),
            all_below(old(self)@.kept, v@.len()),
            all_below(old(self)@.low, v@.len()),
        ensures
            final(self).wf(v@.len()),
            final(self)@ == all_checked(
                candidate_views(v@),
                *ctx,
                unsafe_confidence,
                given(grant),
                home@,
                old(self)@,
            ),
    {
        if self.survivors.len() == 0 {
            self.next = ReclaimAction::Finish(ReclaimEnd::AllBlocked);
        } else {
            self.next = ReclaimAction::AskConfirm;
            if ctx.json || ctx.yes {
                self.agree(v, unsafe_confidence, grant, home);
            }
        }
    }
}

fn copy_positions(v: &Vec<usize>) -> (r: Vec<usize>)
    ensures
        r@ == v@,
{
    let mut out: Vec<usize> = Vec::new();
    let mut i: usize = 0;
    while i < v.len()
        invariant
            i <= v@.len(),
            out@ == v@.take(i as int),
        decreases v.len() - i,
    {
        out.push(v[i]);
        assert(out@ =~= v@.take(i + 1));
        i += 1;
    }
    assert(v@.take(i as int) =~= v@);
    out
}

/// Picks the top candidates that are sure enough and begins with the check of the first.
pub fn reclaim_begin(candidates: &Vec<Candidate>, top: usize, unsafe_confidence: bool) -> (r:
    ReclaimRun)
    ensures
        r.wf(candidates@.len()),
        r@ == reclaim_start(candidate_views(candidates@), top as nat, unsafe_confidence),
{
    let picks: Vec<usize> = pick_candidates(candidates, unsafe_confidence, top);
    let next: ReclaimAction = if picks.len() == 0 {
        ReclaimAction::Finish(ReclaimEnd::NoCandidates)
    } else {
        ReclaimAction::Check(picks[0])
    };
    let r: ReclaimRun = ReclaimRun {
        picks,
        survivors: Vec::new(),
        blocked: Vec::new(),
        kept: Vec::new(),
        acted: Vec::new(),
        denied: Vec::new(),
        low: Vec::new(),
        deleted: Vec::new(),
        at: 0,
        next,
    };
    assert(r@ =~= reclaim_start(candidate_views(candidates@), top as nat, unsafe_confidence));
    r
}

/// Takes what came of the last action and decides on the next. Every pick is checked first; then
/// the deletion is confirmed, where a person is there to answer; then the grant rules on what is
/// below the floor, or its ids are typed again; then the survivors are deleted.
pub fn reclaim_step(
    run: &mut ReclaimRun,
    event: ReclaimEvent,
    candidates: &Vec<Candidate>,
    ctx: &Context,
    unsafe_confidence: bool,
    grant: Option<&Grant>,
    home: &str,
)
    requires
        old(run).wf(candidates@.len()),
    ensures
        final(run).wf(candidates@.len()),
        final(run)@ == reclaim_next(
            candidate_views(candidates@),
            *ctx,
            unsafe_confidence,
            given(grant),
            home@,
            old(run)@,
            event,
        ),
{
    let ghost was = run@;
    assert(was.picks.len() == run.picks.len());
    assert(was.low.len() == run.low.len());
    assert(was.kept.len() == run.kept.len());
    match (run.next, event) {
        (ReclaimAction::Check(i), ReclaimEvent::Checked(safe)) => {
            assert(was.picks[was.at as int] == i as int);
            if safe {
                run.survivors.push(i);
                assert(indices(run.survivors@) =~= was.survivors.push(i as int));
            } else {
                run.blocked.push(i);
                assert(indices(run.blocked@) =~= was.blocked.push(i as int));
            }
            run.at = run.at + 1;
            if run.at < run.picks.len() {
                run.next = ReclaimAction::Check(run.picks[run.at]);
            } else {
                run.checked(candidates, ctx, unsafe_confidence, grant, home);
            }
        },
        (ReclaimAction::AskConfirm, ReclaimEvent::Confirmed(yes)) => {
            if yes {
                run.agree(candidates, unsafe_confidence, grant, home);
            } else {
                run.next = ReclaimAction::Finish(ReclaimEnd::Aborted);
            }
        },
        (ReclaimAction::AskTypedId(_), ReclaimEvent::Typed(right)) => {
            if !right {
                run.next = ReclaimAction::Finish(ReclaimEnd::IdMismatch);
            } else if run.at + 1 < run.low.len() {
                run.at = run.at + 1;
                run.next = ReclaimAction::AskTypedId(run.low[run.at]);
            } else {
                run.start_deleting(Ghost(candidates@.len()));
            }
        },
        (ReclaimAction::Delete(i), ReclaimEvent::Deleted(done)) => {
            if done {
                run.deleted.push(i);
                assert(indices(run.deleted@) =~= was.deleted.push(i as int));
            }
            run.at = run.at + 1;
            if run.at < run.kept.len() {
                run.next = ReclaimAction::Delete(run.kept[run.at]);
            } else {
                run.next = ReclaimAction::Finish(ReclaimEnd::Done);
            }
        },
        _ => {},
    }
}

/// The process exit code at the end of a run.
pub open spec fn end_code(end: ReclaimEnd) -> i32 {
    match end {
        ReclaimEnd::NoCandidates => 1,
        ReclaimEnd::AllBlocked => 2,
        _ => 0,
    }
}

pub fn reclaim_exit(end: ReclaimEnd) -> (r: i32)
    ensures
        r == end_code(end),
{
    match end {
        ReclaimEnd::NoCandidates => 1,
        ReclaimEnd::AllBlocked => 2,
        _ => 0,
    }
}

// ---------------------------------------------------------------------------
// What a deletion rests on
// ---------------------------------------------------------------------------
/// What a run is about: the candidates and what was asked for.
pub ghost struct ReclaimCase {
    pub candidates: Seq<CandidateView>,
    pub top: nat,
    pub ctx: Context,
    pub unsafe_confidence: bool,
    pub grant: Option<Grant>,
    pub home: Seq<char>,
}

/// The run after a sequence of events.
pub open spec fn reclaim_after(case: ReclaimCase, events: Seq<ReclaimEvent>) -> ReclaimView
    decreases events.len(),
{
    if events.len() == 0 {
        reclaim_start(case.candidates, case.top, case.unsafe_confidence)
    } else {
        reclaim_next(
            case.candidates,
            case.ctx,
            case.unsafe_confidence,
            case.grant,
            case.home,
            reclaim_after(case, events.drop_last()),
            events.last(),
        )
    }
}

/// At some time the run wanted `step`, and `event` came of it.
pub open spec fn answered(
    case: ReclaimCase,
    events: Seq<ReclaimEvent>,
    step: ReclaimStep,
    event: ReclaimEvent,
) -> bool {
    exists|k: int|
        0 <= k < events.len() && events[k] == event && (#[trigger] reclaim_after(
            case,
            events.take(k),
        )).next == step
}

/// The grant allows the candidate after some bytes that it allowed before.
pub open spec fn grant_allows(case: ReclaimCase, i: int) -> bool {
    match case.grant {
        Some(g) => {
            let c = case.candidates[i];
            exists|spent: u64|
                #[trigger] ruling(
                    g,
                    c.consequences,
                    c.confidence,
                    c.size_bytes,
                    c.path,
                    spent,
                    case.home,
                ) == GrantDecision::Allow
        },
        None => false,
    }
}

/// The candidate is above the floor, or its id was typed again, or the grant allows it.
spec fn settled(case: ReclaimCase, events: Seq<ReclaimEvent>, i: int) -> bool {
    case.candidates[i].confidence >= MIN_CONFIDENCE || answered(
        case,
        events,
        ReclaimStep::AskTypedId(i),
        ReclaimEvent::Typed(true),
    ) || grant_allows(case, i)
}

spec fn confirmed(case: ReclaimCase, events: Seq<ReclaimEvent>) -> bool {
    case.ctx.interactive() ==> answered(
        case,
        events,
        ReclaimStep::AskConfirm,
        ReclaimEvent::Confirmed(true),
    )
}

spec fn backed(case: ReclaimCase, events: Seq<ReclaimEvent>) -> bool {
    let s = reclaim_after(case, events);
    &&& s.wf(case.candidates.len())
    &&& s.picks == picked(case.candidates, case.unsafe_confidence, case.top)
    &&& forall|k: int|
        0 <= k < s.survivors.len() ==> s.picks.contains(#[trigger] s.survivors[k]) && answered(
            case,
            events,
            ReclaimStep::Check(s.survivors[k]),
            ReclaimEvent::Checked(true),
        )
    &&& forall|k: int| 0 <= k < s.kept.len() ==> s.survivors.contains(#[trigger] s.kept[k])
    &&& s.next is AskTypedId ==> {
        &&& confirmed(case, events)
        &&& forall|k: int|
            0 <= k < s.at ==> answered(
                case,
                events,
                ReclaimStep::AskTypedId(#[trigger] s.low[k]),
                ReclaimEvent::Typed(true),
            )
        &&& forall|k: int|
            0 <= k < s.kept.len() ==> settled(case, events, #[trigger] s.kept[k])
                || s.low.contains(s.kept[k])
    }
    &&& s.next is Delete ==> {
        &&& confirmed(case, events)
        &&& forall|k: int| 0 <= k < s.kept.len() ==> settled(case, events, #[trigger] s.kept[k])
    }
}

/// What was answered before an event still is after it.
proof fn lemma_answered_grows(
    case: ReclaimCase,
    events: Seq<ReclaimEvent>,
    step: ReclaimStep,
    event: ReclaimEvent,
)
    requires
        events.len() > 0,
        answered(case, events.drop_last(), step, event),
    ensures
        answered(case, events, step, event),
{
    let d = events.drop_last();
    let k = choose|k: int|
        0 <= k < d.len() && d[k] == event && (#[trigger] reclaim_after(case, d.take(k))).next
            == step;
    assert(d.take(k) =~= events.take(k));
}

proof fn lemma_answered_last(case: ReclaimCase, events: Seq<ReclaimEvent>)
    requires
        events.len() > 0,
    ensures
        answered(
            case,
            events,
            reclaim_after(case, events.drop_last()).next,
            events.last(),
        ),
{
    let k = events.len() - 1;
    assert(events.take(k) =~= events.drop_last());
}

proof fn lemma_sifted_ruled(v: Seq<CandidateView>, g: Grant, home: Seq<char>, k: int)
    requires
        0 <= k < sifted(v, g, home).kept.len(),
    ensures
        ({
            let i = sifted(v, g, home).kept[k];
            let c = v[i];
            &&& 0 <= i < v.len()
            &&& c.confidence >= MIN_CONFIDENCE || exists|spent: u64|
                #[trigger] ruling(
                    g,
                    c.consequences,
                    c.confidence,
                    c.size_bytes,
                    c.path,
                    spent,
                    home,
                ) == GrantDecision::Allow
        }),
    decreases v.len(),
{
    if v.len() > 0 {
        let d = v.drop_last();
        let (s, r) = (sifted(d, g, home), sifted(v, g, home));
        if k < s.kept.len() {
            lemma_sifted_ruled(d, g, home, k);
            assert(r.kept[k] == s.kept[k]);
            assert(d[s.kept[k]] == v[s.kept[k]]);
        } else {
            let c = v.last();
            assert(r.kept[k] == v.len() - 1);
            assert(c.confidence >= MIN_CONFIDENCE || ruling(
                g,
                c.consequences,
                c.confidence,
                c.size_bytes,
                c.path,
                s.spent,
                home,
            ) == GrantDecision::Allow);
        }
    }
}

/// Once the deletion is agreed to, what is kept survived, and each of it is above the floor,
/// allowed by the grant or among those to be typed again.
proof fn lemma_agreed(case: ReclaimCase, s: ReclaimView)
    requires
        all_below(s.picks, case.candidates.len()),
        all_below(s.survivors, case.candidates.len()),
        s.picks == picked(case.candidates, case.unsafe_confidence, case.top),
        forall|k: int|
            0 <= k < s.survivors.len() ==> s.picks.contains(#[trigger] s.survivors[k]),
    ensures
        ({
            let t = agreed(
                case.candidates,
                case.unsafe_confidence,
                case.grant,
                case.home,
                s,
            );
            &&& t.wf(case.candidates.len())
            &&& t.picks == s.picks
            &&& t.survivors == s.survivors
            &&& forall|k: int|
                0 <= k < t.kept.len() ==> s.survivors.contains(#[trigger] t.kept[k])
            &&& t.next is Delete || t.next is AskTypedId || t.next is Finish
            &&& t.next is AskTypedId ==> t.at == 0
            &&& t.next is Delete ==> t.low.len() == 0
            &&& forall|k: int|
                0 <= k < t.kept.len() ==> case.candidates[#[trigger] t.kept[k]].confidence
                    >= MIN_CONFIDENCE || grant_allows(case, t.kept[k]) || t.low.contains(t.kept[k])
        }),
{
    let (v, u) = (case.candidates, case.unsafe_confidence);
    let g = after_grant(v, case.grant, case.home, s);
    let w = arranged(v, s.survivors);
    let t = agreed(v, u, case.grant, case.home, s);
    assert(t.kept == g.kept);
    if let Some(grant) = case.grant {
        lemma_sifted_positions(w, grant, case.home);
    }
    assert forall|k: int| 0 <= k < t.kept.len() implies s.survivors.contains(
        #[trigger] t.kept[k],
    ) && (case.grant is Some ==> v[t.kept[k]].confidence >= MIN_CONFIDENCE || grant_allows(
        case,
        t.kept[k],
    )) by {
        if let Some(grant) = case.grant {
            let f = sifted(w, grant, case.home);
            lemma_sifted_ruled(w, grant, case.home, k);
            assert(t.kept[k] == s.survivors[f.kept[k]]);
            assert(w[f.kept[k]] == v[t.kept[k]]);
        } else {
            assert(t.kept[k] == s.survivors[k]);
        }
    }
    let flags = low_flags(arranged(v, g.kept), u, case.grant is Some);
    let m = marked(flags);
    lemma_marked(flags);
    assert forall|k: int| 0 <= k < t.low.len() implies g.kept.contains(#[trigger] t.low[k]) by {
        assert(t.low[k] == g.kept[m[k]]);
    }
    assert forall|k: int| 0 <= k < t.kept.len() implies 0 <= #[trigger] t.kept[k] < v.len() by {
        let q = s.survivors.index_of(t.kept[k]);
        assert(s.survivors[q] == t.kept[k]);
    }
    assert forall|k: int| 0 <= k < t.low.len() implies 0 <= #[trigger] t.low[k] < v.len() by {
        let q = g.kept.index_of(t.low[k]);
        assert(t.kept[q] == t.low[k]);
    }
    assert forall|k: int| 0 <= k < t.kept.len() implies v[#[trigger] t.kept[k]].confidence
        >= MIN_CONFIDENCE || grant_allows(case, t.kept[k]) || t.low.contains(t.kept[k]) by {
        let i = t.kept[k];
        if case.grant is None && v[i].confidence < MIN_CONFIDENCE {
            if u {
                assert(arranged(v, g.kept)[k] == v[i]);
                assert(flags[k]);
                assert(m.contains(k));
                let q = m.index_of(k);
                assert(t.low[q] == g.kept[k]);
            } else {
                assert(s.picks.contains(i)) by {
                    let q = s.survivors.index_of(i);
                    assert(s.survivors[q] == i);
                }
                let q = s.picks.index_of(i);
                picked_are_sure(v, case.top, q);
            }
        }
    }
}

/// One event keeps a run backed.
proof fn lemma_backed_step(case: ReclaimCase, events: Seq<ReclaimEvent>)
    requires
        events.len() > 0,
        backed(case, events.drop_last()),
    ensures
        backed(case, events),
{
    let d = events.drop_last();
    let (s, t) = (reclaim_after(case, d), reclaim_after(case, events));
    let n = case.candidates.len();
    let e = events.last();
    lemma_answered_last(case, events);
    assert forall|step: ReclaimStep, event: ReclaimEvent| #[trigger]
        answered(case, d, step, event) implies answered(case, events, step, event) by {
        lemma_answered_grows(case, events, step, event);
    }
    assert forall|i: int| #[trigger] settled(case, d, i) implies settled(case, events, i) by {}
    match (s.next, e) {
        (ReclaimStep::Check(i), ReclaimEvent::Checked(safe)) => {
            let c = if safe {
                ReclaimView { survivors: s.survivors.push(i), at: s.at + 1, ..s }
            } else {
                ReclaimView { blocked: s.blocked.push(i), at: s.at + 1, ..s }
            };
            assert forall|k: int| 0 <= k < c.survivors.len() implies s.picks.contains(
                #[trigger] c.survivors[k],
            ) && answered(
                case,
                events,
                ReclaimStep::Check(c.survivors[k]),
                ReclaimEvent::Checked(true),
            ) && 0 <= c.survivors[k] < n by {
                if k < s.survivors.len() {
                    assert(c.survivors[k] == s.survivors[k]);
                } else {
                    assert(s.picks[s.at as int] == i);
                }
            }
            assert forall|k: int| 0 <= k < s.kept.len() implies c.survivors.contains(
                #[trigger] s.kept[k],
            ) by {
                let q = s.survivors.index_of(s.kept[k]);
                assert(s.survivors.contains(s.kept[k]));
                assert(c.survivors[q] == s.kept[k]);
            }
            lemma_agreed(case, c);
            assert(t.survivors == c.survivors);
        },
        (ReclaimStep::AskConfirm, ReclaimEvent::Confirmed(_)) => {
            lemma_agreed(case, s);
        },
        (ReclaimStep::AskTypedId(_), ReclaimEvent::Typed(right)) => {
            if right {
                assert forall|k: int| 0 <= k < s.at + 1 implies answered(
                    case,
                    events,
                    ReclaimStep::AskTypedId(#[trigger] s.low[k]),
                    ReclaimEvent::Typed(true),
                ) by {
                    if k == s.at {
                        assert(s.next == ReclaimStep::AskTypedId(s.low[k]));
                    }
                }
                if s.at + 1 >= s.low.len() {
                    assert forall|k: int| 0 <= k < s.kept.len() implies settled(
                        case,
                        events,
                        #[trigger] s.kept[k],
                    ) by {
                        if !settled(case, d, s.kept[k]) {
                            let q = s.low.index_of(s.kept[k]);
                            assert(s.low[q] == s.kept[k]);
                        }
                    }
                }
            }
        },
        _ => {},
    }
}

proof fn lemma_backed(case: ReclaimCase, events: Seq<ReclaimEvent>)
    ensures
        backed(case, events),
    decreases events.len(),
{
    if events.len() == 0 {
        let (p, m) = (
            picked(case.candidates, case.unsafe_confidence, case.top),
            sure_order(case.candidates, case.unsafe_confidence),
        );
        lemma_sure_order(case.candidates, case.unsafe_confidence);
        assert forall|k: int| 0 <= k < p.len() implies 0 <= #[trigger] p[k]
            < case.candidates.len() by {
            assert(p[k] == m[k]);
        }
    } else {
        lemma_backed(case, events.drop_last());
        lemma_backed_step(case, events);
    }
}

/// Whatever the answers are, a run that is about to delete a candidate has picked it and found it
/// safe in its check; the deletion was confirmed, unless there is no person to ask; and where the
/// candidate is below the floor, its id was typed again or the grant allows it.
pub proof fn reclaim_deletes_only_what_was_cleared(
    case: ReclaimCase,
    events: Seq<ReclaimEvent>,
    i: int,
)
    requires
        reclaim_after(case, events).next == ReclaimStep::Delete(i),
    ensures
        picked(case.candidates, case.unsafe_confidence, case.top).contains(i),
        answered(case, events, ReclaimStep::Check(i), ReclaimEvent::Checked(true)),
        case.ctx.interactive() ==> answered(
            case,
            events,
            ReclaimStep::AskConfirm,
            ReclaimEvent::Confirmed(true),
        ),
        case.candidates[i].confidence < MIN_CONFIDENCE ==> answered(
            case,
            events,
            ReclaimStep::AskTypedId(i),
            ReclaimEvent::Typed(true),
        ) || grant_allows(case, i),
{
    lemma_backed(case, events);
    let s = reclaim_after(case, events);
    assert(s.kept[s.at as int] == i);
    assert(s.survivors.contains(i));
    let q = s.survivors.index_of(i);
    assert(s.survivors[q] == i);
    assert(settled(case, events, s.kept[s.at as int]));
}

proof fn lemma_bytes_arranged(v: Seq<CandidateView>, list: Seq<int>, at: Seq<int>)
    requires
        all_below(at, list.len()),
    ensures
        bytes_of_positions(v, arranged(list, at)) == bytes_of_positions(arranged(v, list), at),
    decreases at.len(),
{
    if at.len() > 0 {
        let d = at.drop_last();
        assert forall|k: int| 0 <= k < d.len() implies 0 <= #[trigger] d[k] < list.len() by {
            assert(d[k] == at[k]);
        }
        lemma_bytes_arranged(v, list, d);
        assert(arranged(list, at).drop_last() =~= arranged(list, d));
        assert(at.last() == at[at.len() - 1]);
        assert(arranged(list, at).last() == list[at.last()]);
    }
}

/// Whatever the answers are, what a run deletes by its grant alone stays, all together, within
/// the grant's byte limit.
pub proof fn reclaim_stays_within_its_grant(case: ReclaimCase, events: Seq<ReclaimEvent>)
    requires
        case.grant is Some,
    ensures
        bytes_of_positions(case.candidates, reclaim_after(case, events).acted)
            <= case.grant->0.max_bytes,
    decreases events.len(),
{
    if events.len() > 0 {
        let d = events.drop_last();
        reclaim_stays_within_its_grant(case, d);
        let (s, t) = (reclaim_after(case, d), reclaim_after(case, events));
        if t.acted != s.acted {
            let w = arranged(case.candidates, t.survivors);
            let f = sifted(w, case.grant->0, case.home);
            lemma_sifted_positions(w, case.grant->0, case.home);
            grant_bounds_the_whole_batch(w, case.grant->0, case.home);
            assert(t.acted == arranged(t.survivors, f.acted));
            lemma_bytes_arranged(case.candidates, t.survivors, f.acted);
        }
    }
}

} // verus!
