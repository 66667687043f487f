//! Removing one candidate: what has to be asked and checked before it is moved aside or deleted.

use crate::check::find_candidate;
use crate::classify::file_tag;
#[allow(unused_imports)]
use crate::classify::tag_of;
use crate::grant::{allows, Denial, Grant, GrantDecision};
#[allow(unused_imports)]
use crate::grant::ruling;
use crate::history::{freed_between, freed_by_move, undo_command, ActionKind, Entry, MoveKind};
#[allow(unused_imports)]
use crate::history::{context_view, growth, moved, undo_text, ReceiptView};
use crate::model::{Candidate, Category, Consequences, Context, Profile, IMMEDIATE_THRESHOLD};
#[allow(unused_imports)]
use crate::model::CandidateView;
use crate::paths::{expand_home, is_same_path};
#[allow(unused_imports)]
use crate::paths::{expanded, same_path};
use vstd::prelude::*;

verus! {

// ---------------------------------------------------------------------------
// The target
// ---------------------------------------------------------------------------
/// What a target on the command line stands for.
#[derive(Debug)]
pub enum Target {
    /// The candidate at a position.
    Known(usize),
    /// A path that no candidate has.
    Place(String),
}

/// The candidate has the id, or the path with a leading `~` filled in.
pub open spec fn aimed_at(c: CandidateView, target: Seq<char>, home: Seq<char>) -> bool {
    c.id == target || same_path(c.path, expanded(target, home))
}

/// A candidate is found by its id or by its path, ids first; any other target is taken as a path.
pub fn find_target(candidates: &Vec<Candidate>, target: &str, home: &str) -> (r: Target)
    ensures
        match r {
            Target::Known(i) => {
                &&& i < candidates@.len()
                &&& aimed_at(candidates@[i as int]@, target@, home@)
                &&& (candidates@[i as int].id@ == target@ && forall|j: int|
                    0 <= j < i ==> (#[trigger] candidates@[j]).id@ != target@) || ((forall|j: int|
                    0 <= j < candidates@.len() ==> (#[trigger] candidates@[j]).id@ != target@)
                    && forall|j: int|
                    0 <= j < i ==> !aimed_at((#[trigger] candidates@[j])@, target@, home@))
            },
            Target::Place(p) => {
                &&& p@ == expanded(target@, home@)
                &&& forall|j: int|
                    0 <= j < candidates@.len() ==> !aimed_at(
                        (#[trigger] candidates@[j])@,
                        target@,
                        home@,
                    )
            },
        },
{
    if let Some(i) = find_candidate(candidates, target) {
        return Target::Known(i);
    }
    let path: String = expand_home(target, home);
    let mut i: usize = 0;
    while i < candidates.len()
        invariant
            i <= candidates@.len(),
            path@ == expanded(target@, home@),
            forall|j: int|
                0 <= j < candidates@.len() ==> (#[trigger] candidates@[j]).id@ != target@,
            forall|j: int|
                0 <= j < i ==> !aimed_at((#[trigger] candidates@[j])@, target@, home@),
        decreases candidates.len() - i,
    {
        if is_same_path(candidates[i].path.as_str(), path.as_str()) {
            return Target::Known(i);
        }
        i += 1;
    }
    Target::Place(path)
}

/// What stands for a path that no rule proposed: it has no confidence of its own.
pub open spec fn placed(path: Seq<char>, size: u64) -> CandidateView {
    CandidateView {
        id: "manual-"@ + tag_of(path),
        rule_id: "manual"@,
        path,
        size_bytes: size,
        category: Category::Unknown,
        confidence: 0,
        reason: "no rule matched"@,
        domain: None,
        modified: None,
        accessed: None,
        consequences: None,
        consequence_contract: None,
        metrics: None,
        reference_url: None,
    }
}

/// A candidate for a path that the user named.
pub fn place_candidate(path: &str, size: u64) -> (r: Candidate)
    ensures
        r@ == placed(path@, size),
{
    let mut id: String = "manual-".to_owned();
    id.append(file_tag(path).as_str());
    Candidate {
        id,
        rule_id: "manual".to_owned(),
        path: path.to_owned(),
        size_bytes: size,
        category: Category::Unknown,
        confidence: 0,
        reason: "no rule matched".to_owned(),
        domain: None,
        modified: None,
        accessed: None,
        consequences: None,
        consequence_contract: None,
        metrics: None,
        reference_url: None,
    }
}

/// The confidence from which a candidate is deleted without further consent.
pub const IMMEDIATE_MIN_CONFIDENCE: u32 = IMMEDIATE_THRESHOLD;

/// What was asked for.
#[derive(Debug, Clone, Copy, PartialEq, Eq, Structural)]
pub struct AirlockRequest {
    /// Delete for good.
    pub immediate: bool,
    /// Accept a low confidence, with the id typed again.
    pub unsafe_confidence: bool,
    /// Grants count.
    pub actuation: bool,
}

/// What has been answered so far.
#[derive(Debug, Clone, Copy, PartialEq, Eq, Structural)]
pub struct Answers {
    /// The id was typed again, rightly or not.
    pub typed: Option<bool>,
    /// The check found the path safe, or not.
    pub checked: Option<bool>,
    /// The removal was confirmed, or not.
    pub confirmed: Option<bool>,
}

/// What comes next.
#[derive(Debug, Clone, Copy, PartialEq, Eq, Structural)]
pub enum AirlockNext {
    /// The confidence is too low to delete.
    ConfidenceTooLow,
    /// Have the id typed again.
    AskTypedId,
    /// The id was not typed again.
    NotConfirmed,
    /// Check the path.
    Check,
    /// The path is not safe.
    Unsafe,
    /// The grant does not allow it.
    GrantDenied(Denial),
    /// Ask for confirmation.
    AskConfirm,
    /// The removal was not confirmed.
    Aborted,
    /// Delete for good.
    Delete,
    /// Move aside.
    Airlock,
}

/// A deletion with too little confidence.
pub open spec fn below_floor(req: AirlockRequest, c: CandidateView) -> bool {
    req.immediate && c.confidence < IMMEDIATE_MIN_CONFIDENCE
}

/// The grant that speaks for a request, where grants count.
pub open spec fn speaking(req: AirlockRequest, grant: Option<Grant>) -> Option<Grant> {
    if req.actuation {
        grant
    } else {
        None
    }
}

/// What the grant says where it has to stand in for the typed id.
pub open spec fn override_ruling(
    req: AirlockRequest,
    c: CandidateView,
    grant: Option<Grant>,
    home: Seq<char>,
) -> GrantDecision {
    match speaking(req, grant) {
        Some(g) => if below_floor(req, c) {
            ruling(g, c.consequences, c.confidence, c.size_bytes, c.path, 0, home)
        } else {
            GrantDecision::Allow
        },
        None => GrantDecision::Allow,
    }
}

/// A person confirms a removal; one that can be undone only where the profile asks for it.
pub open spec fn confirmation_needed(req: AirlockRequest, ctx: Context, ask_first: bool) -> bool {
    ctx.interactive() && (req.immediate || ask_first)
}

pub open spec fn next_of(
    req: AirlockRequest,
    c: CandidateView,
    ctx: Context,
    ask_first: bool,
    grant: Option<Grant>,
    home: Seq<char>,
    a: Answers,
) -> AirlockNext {
    let typed_needed = below_floor(req, c) && speaking(req, grant) is None;
    if typed_needed && !req.unsafe_confidence {
        AirlockNext::ConfidenceTooLow
    } else if typed_needed && a.typed is None {
        AirlockNext::AskTypedId
    } else if typed_needed && a.typed == Some(false) {
        AirlockNext::NotConfirmed
    } else if a.checked is None {
        AirlockNext::Check
    } else if a.checked == Some(false) {
        AirlockNext::Unsafe
    } else {
        match override_ruling(req, c, grant, home) {
            GrantDecision::Deny(d) => AirlockNext::GrantDenied(d),
            GrantDecision::Allow => {
                if confirmation_needed(req, ctx, ask_first) && a.confirmed is None {
                    AirlockNext::AskConfirm
                } else if confirmation_needed(req, ctx, ask_first) && a.confirmed == Some(false) {
                    AirlockNext::Aborted
                } else if req.immediate {
                    AirlockNext::Delete
                } else {
                    AirlockNext::Airlock
                }
            },
        }
    }
}

pub open spec fn given(grant: Option<&Grant>) -> Option<Grant> {
    match grant {
        Some(g) => Some(*g),
        None => None,
    }
}

/// What comes next for a candidate, given what has been answered so far. The check comes before
/// anything that a grant or a confirmation decides.
pub fn airlock_next(
    req: &AirlockRequest,
    c: &Candidate,
    ctx: &Context,
    prof: &Profile,
    grant: Option<&Grant>,
    home: &str,
    a: &Answers,
) -> (r: AirlockNext)
    ensures
        r == next_of(
            *req,
            c@,
            *ctx,
            prof@.confirm_before_airlock,
            given(grant),
            home@,
            *a,
        ),
{
    let low: bool = req.immediate && c.confidence < IMMEDIATE_MIN_CONFIDENCE;
    let spoken: bool = req.actuation && grant.is_some();
    if low && !spoken {
        if !req.unsafe_confidence {
            return AirlockNext::ConfidenceTooLow;
        }
        match a.typed {
            None => {
                return AirlockNext::AskTypedId;
            },
            Some(right) => if !right {
                return AirlockNext::NotConfirmed;
            },
        }
    }
    match a.checked {
        None => {
            return AirlockNext::Check;
        },
        Some(safe) => if !safe {
            return AirlockNext::Unsafe;
        },
    }
    if low && req.actuation {
        if let Some(g) = grant {
            let cons: Option<&Consequences> = match &c.consequences {
                Some(k) => Some(k),
                None => None,
            };
            let ruled: GrantDecision = allows(
                g,
                cons,
                c.confidence,
                c.size_bytes,
                c.path.as_str(),
                0,
                home,
            );
            if let GrantDecision::Deny(d) = ruled {
                return AirlockNext::GrantDenied(d);
            }
        }
    }
    let ask: bool = !ctx.json && !ctx.yes && (req.immediate
        || prof.preferences.confirm_before_airlock);
    if ask {
        match a.confirmed {
            None => {
                return AirlockNext::AskConfirm;
            },
            Some(yes) => if !yes {
                return AirlockNext::Aborted;
            },
        }
    }
    if req.immediate {
        AirlockNext::Delete
    } else {
        AirlockNext::Airlock
    }
}

/// The exit code of a step that ends the command without acting, where a failed check passes its
/// own on; 0 for every other.
pub open spec fn exit_of(n: AirlockNext, check: i32) -> i32 {
    match n {
        AirlockNext::ConfidenceTooLow | AirlockNext::NotConfirmed | AirlockNext::GrantDenied(_) => 3,
        AirlockNext::Unsafe => check,
        _ => 0,
    }
}

pub fn airlock_exit(n: AirlockNext, check: i32) -> (r: i32)
    ensures
        r == exit_of(n, check),
{
    match n {
        AirlockNext::ConfidenceTooLow | AirlockNext::NotConfirmed | AirlockNext::GrantDenied(_) => 3,
        AirlockNext::Unsafe => check,
        _ => 0,
    }
}

/// Nothing is removed that the check did not find safe, whatever the grant and the answers.
pub proof fn removal_needs_a_passed_check(
    req: AirlockRequest,
    c: CandidateView,
    ctx: Context,
    ask_first: bool,
    grant: Option<Grant>,
    home: Seq<char>,
    a: Answers,
)
    requires
        a.checked != Some(true),
    ensures
        next_of(req, c, ctx, ask_first, grant, home, a) != AirlockNext::Delete,
        next_of(req, c, ctx, ask_first, grant, home, a) != AirlockNext::Airlock,
{
    if let Some(safe) = a.checked {
        assert(!safe);
    }
}

/// A deletion with too little confidence needs the id typed again, or a grant that allows it.
pub proof fn low_confidence_needs_an_override(
    req: AirlockRequest,
    c: CandidateView,
    ctx: Context,
    ask_first: bool,
    grant: Option<Grant>,
    home: Seq<char>,
    a: Answers,
)
    requires
        c.confidence < IMMEDIATE_MIN_CONFIDENCE,
        next_of(req, c, ctx, ask_first, grant, home, a) == AirlockNext::Delete,
    ensures
        (req.unsafe_confidence && a.typed == Some(true)) || (speaking(req, grant) is Some
            && override_ruling(req, c, grant, home) == GrantDecision::Allow),
{
}

// ---------------------------------------------------------------------------
// Receipts
// ---------------------------------------------------------------------------
pub open spec fn deletion_receipt(
    c: CandidateView,
    before: Option<u64>,
    after: Option<u64>,
    ts: i64,
) -> ReceiptView {
    ReceiptView {
        ts,
        command: ActionKind::Reclaim,
        candidate_id: Some(c.id),
        rule_id: Some(c.rule_id),
        path: c.path,
        size_bytes: c.size_bytes,
        df_before: before,
        df_after: after,
        actually_freed: growth(before, after),
        reversible: false,
        undo_cmd: None,
        rule_confidence: Some(c.confidence),
        context: Seq::empty(),
    }
}

/// The receipt of a deletion, with the free space before and after it.
pub fn deleted_receipt(c: &Candidate, before: Option<u64>, after: Option<u64>, ts: i64) -> (r:
    Entry)
    ensures
        r@ == deletion_receipt(c@, before, after, ts),
{
    let context: Vec<(String, String)> = Vec::new();
    assert(context_view(context@) =~= Seq::empty());
    Entry {
        ts,
        command: ActionKind::Reclaim,
        candidate_id: Some(c.id.as_str().to_owned()),
        rule_id: Some(c.rule_id.as_str().to_owned()),
        path: c.path.as_str().to_owned(),
        size_bytes: c.size_bytes,
        df_before: before,
        df_after: after,
        actually_freed: freed_between(before, after),
        reversible: false,
        undo_cmd: None,
        rule_confidence: Some(c.confidence),
        context,
    }
}

pub open spec fn airlock_receipt(
    c: CandidateView,
    entry_id: Seq<char>,
    kind: MoveKind,
    before: Option<u64>,
    after: Option<u64>,
    ts: i64,
) -> ReceiptView {
    ReceiptView {
        ts,
        command: ActionKind::Airlock,
        candidate_id: Some(c.id),
        rule_id: Some(c.rule_id),
        path: c.path,
        size_bytes: c.size_bytes,
        df_before: before,
        df_after: after,
        actually_freed: moved(kind, before, after),
        reversible: true,
        undo_cmd: Some(undo_text(entry_id)),
        rule_confidence: Some(c.confidence),
        context: seq![("move_kind"@, kind.text())],
    }
}

/// The receipt of a move into the airlock; it names the command that undoes it.
pub fn airlocked_receipt(
    c: &Candidate,
    entry_id: &str,
    kind: MoveKind,
    before: Option<u64>,
    after: Option<u64>,
    ts: i64,
) -> (r: Entry)
    ensures
        r@ == airlock_receipt(c@, entry_id@, kind, before, after, ts),
{
    let mut context: Vec<(String, String)> = Vec::new();
    context.push(("move_kind".to_owned(), kind.as_str().to_owned()));
    assert(context_view(context@) =~= seq![("move_kind"@, kind.text())]);
    Entry {
        ts,
        command: ActionKind::Airlock,
        candidate_id: Some(c.id.as_str().to_owned()),
        rule_id: Some(c.rule_id.as_str().to_owned()),
        path: c.path.as_str().to_owned(),
        size_bytes: c.size_bytes,
        df_before: before,
        df_after: after,
        actually_freed: freed_by_move(kind, before, after),
        reversible: true,
        undo_cmd: Some(undo_command(entry_id)),
        rule_confidence: Some(c.confidence),
        context,
    }
}

/// A move within a volume is never reported as freed space.
pub proof fn rename_frees_nothing(
    c: CandidateView,
    entry_id: Seq<char>,
    before: Option<u64>,
    after: Option<u64>,
    ts: i64,
)
    ensures
        airlock_receipt(c, entry_id, MoveKind::Rename, before, after, ts).actually_freed is None,
{
}

} // verus!
