//! What holds before anything is removed: who has to agree, what has to be known, and what a grant
//! is good for.

use crate::airlock::{aimed_at, exit_of, next_of, placed, AirlockNext, AirlockRequest, Answers};
use crate::classify::tag_of;
use crate::grant::{class_named, class_of, ruling, Denial, Grant, GrantDecision, RecoveryClass};
use crate::globs::glob_matches;
use crate::model::{CandidateView, Category, ConsequencesView, Context};
use crate::paths::{expanded, parts};
use vstd::prelude::*;

verus! {

// ---------------------------------------------------------------------------
// One candidate
// ---------------------------------------------------------------------------
/// A person's refusal is final: where somebody is there to answer and a confirmation is due, for
/// every deletion and for a move where the profile asks for one, nothing is removed without a yes.
pub proof fn refusal_is_final(
    req: AirlockRequest,
    c: CandidateView,
    ctx: Context,
    ask_first: bool,
    grant: Option<Grant>,
    home: Seq<char>,
    a: Answers,
)
    requires
        !ctx.json,
        !ctx.yes,
        req.immediate || ask_first,
    ensures
        ({
            let next = next_of(req, c, ctx, ask_first, grant, home, a);
            next == AirlockNext::Delete || next == AirlockNext::Airlock ==> a.confirmed == Some(
                true,
            )
        }),
{
    if let Some(yes) = a.confirmed {
        assert(yes || !yes);
    }
}

/// A candidate is deleted for good exactly where that was asked for, the check passed, a person who
/// is there agreed, and its confidence is at least 0.85 or else a grant that counts allows it, or,
/// without one, the low confidence was accepted and the id typed again.
pub proof fn deleted_exactly_where_cleared(
    req: AirlockRequest,
    c: CandidateView,
    ctx: Context,
    ask_first: bool,
    grant: Option<Grant>,
    home: Seq<char>,
    a: Answers,
)
    ensures
        next_of(req, c, ctx, ask_first, grant, home, a) == AirlockNext::Delete <==> {
            &&& req.immediate
            &&& a.checked == Some(true)
            &&& !ctx.json && !ctx.yes ==> a.confirmed == Some(true)
            &&& c.confidence >= 850_000 || (if req.actuation && grant is Some {
                ruling(
                    grant->0,
                    c.consequences,
                    c.confidence,
                    c.size_bytes,
                    c.path,
                    0,
                    home,
                ) == GrantDecision::Allow
            } else {
                req.unsafe_confidence && a.typed == Some(true)
            })
        },
{
    if let Some(x) = a.checked {
        assert(x || !x);
    }
    if let Some(x) = a.confirmed {
        assert(x || !x);
    }
    if let Some(x) = a.typed {
        assert(x || !x);
    }
}

/// A candidate is moved aside exactly where no deletion was asked for, the check passed, and a
/// person who is there agreed or the profile asks nobody.
pub proof fn moved_aside_exactly_where_cleared(
    req: AirlockRequest,
    c: CandidateView,
    ctx: Context,
    ask_first: bool,
    grant: Option<Grant>,
    home: Seq<char>,
    a: Answers,
)
    ensures
        next_of(req, c, ctx, ask_first, grant, home, a) == AirlockNext::Airlock <==> {
            &&& !req.immediate
            &&& a.checked == Some(true)
            &&& !ctx.json && !ctx.yes && ask_first ==> a.confirmed == Some(true)
        },
{
    if let Some(x) = a.checked {
        assert(x || !x);
    }
    if let Some(x) = a.confirmed {
        assert(x || !x);
    }
}

/// An airlock stops for one reason at a time. Too low a confidence comes first, then the typed id,
/// then the check, then the grant, and the confirmation last.
pub proof fn airlock_stops_for_a_reason(
    req: AirlockRequest,
    c: CandidateView,
    ctx: Context,
    ask_first: bool,
    grant: Option<Grant>,
    home: Seq<char>,
    a: Answers,
)
    ensures
        ({
            let next = next_of(req, c, ctx, ask_first, grant, home, a);
            let unsure = req.immediate && c.confidence < 850_000 && !(req.actuation && grant is Some);
            let cleared = !unsure || (req.unsafe_confidence && a.typed == Some(true));
            &&& next == AirlockNext::ConfidenceTooLow <==> unsure && !req.unsafe_confidence
            &&& next == AirlockNext::AskTypedId <==> unsure && req.unsafe_confidence && a.typed
                is None
            &&& next == AirlockNext::NotConfirmed <==> unsure && req.unsafe_confidence && a.typed
                == Some(false)
            &&& next == AirlockNext::Check <==> cleared && a.checked is None
            &&& next == AirlockNext::Unsafe <==> cleared && a.checked == Some(false)
            &&& next is GrantDenied ==> req.immediate && c.confidence < 850_000 && req.actuation
                && grant is Some && a.checked == Some(true) && ruling(
                grant->0,
                c.consequences,
                c.confidence,
                c.size_bytes,
                c.path,
                0,
                home,
            ) == GrantDecision::Deny(next->GrantDenied_0)
            &&& (next == AirlockNext::AskConfirm || next == AirlockNext::Aborted) && req.immediate
                && c.confidence < 850_000 && req.actuation && grant is Some ==> ruling(
                grant->0,
                c.consequences,
                c.confidence,
                c.size_bytes,
                c.path,
                0,
                home,
            ) == GrantDecision::Allow
            &&& next == AirlockNext::AskConfirm || next == AirlockNext::Aborted ==> !ctx.json
                && !ctx.yes && (req.immediate || ask_first) && a.checked == Some(true)
                && a.confirmed != Some(true)
            &&& next == AirlockNext::AskConfirm ==> a.confirmed is None
            &&& next == AirlockNext::Aborted ==> a.confirmed == Some(false)
        }),
{
    if let Some(x) = a.checked {
        assert(x || !x);
    }
    if let Some(x) = a.confirmed {
        assert(x || !x);
    }
    if let Some(x) = a.typed {
        assert(x || !x);
    }
}

/// A removal that policy or a person's consent stands against ends with 3, a failed check with the
/// check's own code, and every other step with 0.
pub proof fn airlock_exits(n: AirlockNext, check: i32)
    ensures
        n == AirlockNext::ConfidenceTooLow || n == AirlockNext::NotConfirmed || n is GrantDenied
            ==> exit_of(n, check) == 3,
        n == AirlockNext::Unsafe ==> exit_of(n, check) == check,
        n == AirlockNext::AskTypedId || n == AirlockNext::Check || n == AirlockNext::AskConfirm || n
            == AirlockNext::Aborted || n == AirlockNext::Delete || n == AirlockNext::Airlock
            ==> exit_of(n, check) == 0,
{
}

/// A path that no rule proposed is taken as it is, with no confidence and nothing known of its
/// recovery; a target means a candidate by its id or by its path.
pub proof fn named_paths_have_no_confidence(
    path: Seq<char>,
    size: u64,
    c: CandidateView,
    target: Seq<char>,
    home: Seq<char>,
)
    ensures
        placed(path, size).path == path,
        placed(path, size).size_bytes == size,
        placed(path, size).confidence == 0,
        placed(path, size).consequences is None,
        placed(path, size).consequence_contract is None,
        aimed_at(c, target, home) <==> c.id == target || parts(c.path) == parts(
            expanded(target, home),
        ),
{
}

// ---------------------------------------------------------------------------
// Grants
// ---------------------------------------------------------------------------
/// The recovery classes have these names; a name that is none of them is taken for the worst.
pub proof fn recovery_classes_by_name(s: Seq<char>)
    ensures
        class_named(s) == RecoveryClass::Auto <==> s == "auto"@,
        class_named(s) == RecoveryClass::Redownload <==> s == "redownload"@,
        class_named(s) == RecoveryClass::Rebuild <==> s == "rebuild"@,
        class_named(s) == RecoveryClass::Recreate <==> s == "recreate"@,
        class_named(s) == RecoveryClass::Manual <==> s == "manual"@,
        RecoveryClass::Auto.level() < RecoveryClass::Redownload.level()
            < RecoveryClass::Rebuild.level() < RecoveryClass::Recreate.level()
            < RecoveryClass::Manual.level() < RecoveryClass::Irreversible.level(),
{
    reveal_strlit("auto");
    reveal_strlit("redownload");
    reveal_strlit("rebuild");
    reveal_strlit("recreate");
    reveal_strlit("manual");
    assert("auto"@.len() == 4 && "redownload"@.len() == 10 && "rebuild"@.len() == 7
        && "recreate"@.len() == 8 && "manual"@.len() == 6);
}

/// A grant allows a removal exactly where the loss is no worse than its ceiling, the confidence no
/// lower than its floor, the size still within its budget after what was spent, and the path within
/// its scope. Otherwise it names the first of these that fails. What has no stated recovery counts
/// as lost for good.
pub proof fn grant_allows_exactly_within_its_bounds(
    g: Grant,
    consequences: Option<ConsequencesView>,
    confidence: u32,
    size: u64,
    path: Seq<char>,
    spent: u64,
    home: Seq<char>,
)
    ensures
        ({
            let class = match consequences {
                Some(k) => class_named(k.recovery),
                None => RecoveryClass::Irreversible,
            };
            let low = class.level() <= g.recovery_class_ceiling.level();
            let sure = confidence >= g.min_confidence;
            let paid = spent + size <= g.max_bytes;
            let inside = g.path_scope is Some ==> glob_matches(
                expanded(g.path_scope->0@, home),
                path,
            );
            let r = ruling(g, consequences, confidence, size, path, spent, home);
            &&& r == GrantDecision::Allow <==> low && sure && paid && inside
            &&& r == GrantDecision::Deny(Denial::Ceiling) <==> !low
            &&& r == GrantDecision::Deny(Denial::Confidence) <==> low && !sure
            &&& r == GrantDecision::Deny(Denial::Budget) <==> low && sure && !paid
            &&& r == GrantDecision::Deny(Denial::Scope) <==> low && sure && paid && !inside
        }),
{
    assert(class_of(consequences) == match consequences {
        Some(k) => class_named(k.recovery),
        None => RecoveryClass::Irreversible,
    });
}

/// A path that was named without a rule is of no known kind, and says so.
pub proof fn named_paths_are_of_no_known_kind(path: Seq<char>, size: u64)
    ensures
        ({
            let c = placed(path, size);
            &&& c.category == Category::Unknown
            &&& c.id == "manual-"@ + tag_of(path)
            &&& c.rule_id == "manual"@
            &&& c.reason == "no rule matched"@
            &&& c.domain is None && c.modified is None && c.accessed is None && c.metrics is None
                && c.reference_url is None
        }),
{
}

} // verus!
