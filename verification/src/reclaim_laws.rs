//! What holds of every batch of deletions.

use crate::grant::{ruling, Grant, GrantDecision};
use crate::model::{CandidateView, CheckView, Context, StepView};
use crate::order::{lemma_marked, marked};
use crate::reclaim::{
    after_grant, all_checked, answered, block_note, end_code, first_failure, grant_allows,
    lemma_sure_order, low_kept, picked, reclaim_after, reclaim_deletes_only_what_was_cleared,
    reclaim_next, reclaim_start, sifted, sure_order, ReclaimCase, ReclaimEnd, ReclaimEvent,
    ReclaimStep, ReclaimView,
};
use vstd::prelude::*;

verus! {

/// The picks are the candidates of at least 0.85, or all of them where a low confidence is accepted,
/// by falling size times confidence, and no more than were asked for. One is left out only where
/// there are as many picks as were asked for, each of which scores at least as high.
pub proof fn picks_are_the_best_of_the_sure(
    v: Seq<CandidateView>,
    unsafe_confidence: bool,
    top: nat,
)
    ensures
        ({
            let p = picked(v, unsafe_confidence, top);
            &&& p.len() <= top
            &&& forall|k: int|
                0 <= k < p.len() ==> 0 <= #[trigger] p[k] < v.len() && (unsafe_confidence
                    || v[p[k]].confidence >= 850_000)
            &&& forall|a: int, b: int|
                0 <= a < b < p.len() ==> v[#[trigger] p[a]].size_bytes as nat
                    * v[p[a]].confidence as nat >= v[#[trigger] p[b]].size_bytes as nat
                    * v[p[b]].confidence as nat
            &&& forall|i: int|
                0 <= i < v.len() && (unsafe_confidence || (#[trigger] v[i]).confidence >= 850_000)
                    && !p.contains(i) ==> p.len() == top && forall|k: int|
                    0 <= k < p.len() ==> v[#[trigger] p[k]].size_bytes as nat
                        * v[p[k]].confidence as nat >= v[i].size_bytes as nat
                        * v[i].confidence as nat
        }),
{
    let (p, m) = (picked(v, unsafe_confidence, top), sure_order(v, unsafe_confidence));
    lemma_sure_order(v, unsafe_confidence);
    assert forall|k: int| 0 <= k < p.len() implies p[k] == #[trigger] m[k] by {}
    assert forall|k: int| 0 <= k < p.len() implies 0 <= #[trigger] p[k] < v.len() && (
    unsafe_confidence || v[p[k]].confidence >= 850_000) by {
        assert(p[k] == m[k]);
    }
    assert forall|a: int, b: int| 0 <= a < b < p.len() implies v[#[trigger] p[a]].size_bytes as nat
        * v[p[a]].confidence as nat >= v[#[trigger] p[b]].size_bytes as nat
        * v[p[b]].confidence as nat by {
        assert(v[m[a]].score() >= v[m[b]].score());
    }
    assert forall|i: int|
        0 <= i < v.len() && (unsafe_confidence || (#[trigger] v[i]).confidence >= 850_000)
            && !p.contains(i) implies p.len() == top && forall|k: int|
        0 <= k < p.len() ==> v[#[trigger] p[k]].size_bytes as nat * v[p[k]].confidence as nat
            >= v[i].size_bytes as nat * v[i].confidence as nat by {
        assert(m.contains(i));
        let t = m.index_of(i);
        if t < p.len() {
            assert(p[t] == i);
        }
        assert forall|k: int| 0 <= k < p.len() implies v[#[trigger] p[k]].size_bytes as nat
            * v[p[k]].confidence as nat >= v[i].size_bytes as nat * v[i].confidence as nat by {
            assert(p[k] == m[k]);
            assert(v[m[k]].score() >= v[m[t]].score());
        }
    }
}

/// A run that is about to delete has the person's yes where somebody is there, the check's pass, and
/// below 0.85 the typed id or a grant that allows it.
pub proof fn deletion_in_a_batch_needs_consent(
    case: ReclaimCase,
    events: Seq<ReclaimEvent>,
    i: int,
)
    requires
        reclaim_after(case, events).next == ReclaimStep::Delete(i),
    ensures
        answered(case, events, ReclaimStep::Check(i), ReclaimEvent::Checked(true)),
        !case.ctx.json && !case.ctx.yes ==> answered(
            case,
            events,
            ReclaimStep::AskConfirm,
            ReclaimEvent::Confirmed(true),
        ),
        case.candidates[i].confidence < 850_000 ==> answered(
            case,
            events,
            ReclaimStep::AskTypedId(i),
            ReclaimEvent::Typed(true),
        ) || grant_allows(case, i),
{
    reclaim_deletes_only_what_was_cleared(case, events, i);
}

/// A no ends the run: nothing more is deleted, whatever comes after. So does an id that was not typed
/// again.
pub proof fn refused_batch_deletes_nothing(
    v: Seq<CandidateView>,
    ctx: Context,
    unsafe_confidence: bool,
    grant: Option<Grant>,
    home: Seq<char>,
    s: ReclaimView,
    later: ReclaimEvent,
)
    ensures
        s.next == ReclaimStep::AskConfirm ==> {
            let t = reclaim_next(
                v,
                ctx,
                unsafe_confidence,
                grant,
                home,
                s,
                ReclaimEvent::Confirmed(false),
            );
            &&& t.next == ReclaimStep::Finish(ReclaimEnd::Aborted)
            &&& t.deleted == s.deleted
            &&& reclaim_next(v, ctx, unsafe_confidence, grant, home, t, later) == t
        },
        s.next is AskTypedId ==> {
            let t = reclaim_next(
                v,
                ctx,
                unsafe_confidence,
                grant,
                home,
                s,
                ReclaimEvent::Typed(false),
            );
            &&& t.next == ReclaimStep::Finish(ReclaimEnd::IdMismatch)
            &&& t.deleted == s.deleted
            &&& reclaim_next(v, ctx, unsafe_confidence, grant, home, t, later) == t
        },
{
}

/// Only a deletion that was reported done is counted, and it is the one that was asked for.
pub proof fn only_done_deletions_count(
    v: Seq<CandidateView>,
    ctx: Context,
    unsafe_confidence: bool,
    grant: Option<Grant>,
    home: Seq<char>,
    s: ReclaimView,
    e: ReclaimEvent,
)
    ensures
        ({
            let t = reclaim_next(v, ctx, unsafe_confidence, grant, home, s, e);
            if s.next is Delete && e == ReclaimEvent::Deleted(true) {
                t.deleted == s.deleted.push(s.next->Delete_0)
            } else {
                t.deleted == s.deleted
            }
        }),
{
}

/// A pick that passed its check survives and one that failed is blocked; neither is lost.
pub proof fn check_sorts_the_picks(
    v: Seq<CandidateView>,
    ctx: Context,
    unsafe_confidence: bool,
    grant: Option<Grant>,
    home: Seq<char>,
    s: ReclaimView,
    safe: bool,
)
    requires
        s.next is Check,
    ensures
        ({
            let i = s.next->Check_0;
            let t = reclaim_next(
                v,
                ctx,
                unsafe_confidence,
                grant,
                home,
                s,
                ReclaimEvent::Checked(safe),
            );
            &&& safe ==> t.survivors == s.survivors.push(i) && t.blocked == s.blocked
            &&& !safe ==> t.survivors == s.survivors && t.blocked == s.blocked.push(i)
            &&& t.next is Finish ==> (t.next == ReclaimStep::Finish(ReclaimEnd::AllBlocked)
                && t.survivors.len() == 0) || (t.survivors.len() > 0 && (ctx.json || ctx.yes))
            &&& t.survivors.len() == 0 ==> !(t.next is Delete) && !(t.next is AskConfirm)
        }),
{
    let i = s.next->Check_0;
    let c = if safe {
        ReclaimView { survivors: s.survivors.push(i), at: s.at + 1, ..s }
    } else {
        ReclaimView { blocked: s.blocked.push(i), at: s.at + 1, ..s }
    };
    if c.at >= c.picks.len() {
        let t = all_checked(v, ctx, unsafe_confidence, grant, home, c);
        assert(t.survivors == c.survivors && t.blocked == c.blocked);
    }
}

/// Every pick is checked before anything is asked or deleted.
pub proof fn every_pick_is_checked(case: ReclaimCase, events: Seq<ReclaimEvent>)
    ensures
        ({
            let s = reclaim_after(case, events);
            &&& s.picks == picked(case.candidates, case.unsafe_confidence, case.top)
            &&& s.next is Check ==> s.survivors.len() + s.blocked.len() == s.at && s.at
                < s.picks.len()
            &&& !(s.next is Check) ==> s.survivors.len() + s.blocked.len() == s.picks.len()
            &&& s.next == ReclaimStep::Finish(ReclaimEnd::NoCandidates) <==> s.picks.len() == 0
        }),
    decreases events.len(),
{
    if events.len() > 0 {
        every_pick_is_checked(case, events.drop_last());
    }
}

/// A batch starts with its best pick, or ends at once where there is none.
pub proof fn batch_starts_with_a_check(v: Seq<CandidateView>, top: nat, unsafe_confidence: bool)
    ensures
        ({
            let s = reclaim_start(v, top, unsafe_confidence);
            let p = picked(v, unsafe_confidence, top);
            &&& s.deleted.len() == 0
            &&& p.len() > 0 ==> s.next == ReclaimStep::Check(p[0])
            &&& p.len() == 0 ==> s.next == ReclaimStep::Finish(ReclaimEnd::NoCandidates)
        }),
{
}

/// Under a grant, what has at least 0.85 stays without it; what has less stays exactly where the
/// grant allows it beside what it has allowed before, and is denied otherwise.
pub proof fn grant_speaks_for_the_unsure_alone(v: Seq<CandidateView>, g: Grant, home: Seq<char>)
    ensures
        ({
            let s = sifted(v, g, home);
            &&& forall|i: int|
                0 <= i < v.len() ==> (s.kept.contains(i) <==> (#[trigger] v[i]).confidence
                    >= 850_000 || s.acted.contains(i))
            &&& forall|i: int| #[trigger]
                s.acted.contains(i) <==> 0 <= i < v.len() && v[i].confidence < 850_000 && ruling(
                    g,
                    v[i].consequences,
                    v[i].confidence,
                    v[i].size_bytes,
                    v[i].path,
                    sifted(v.take(i), g, home).spent,
                    home,
                ) == GrantDecision::Allow
            &&& forall|i: int| #[trigger] s.kept.contains(i) ==> 0 <= i < v.len()
            &&& s.kept.len() + s.denied.len() == v.len()
        }),
    decreases v.len(),
{
    if v.len() > 0 {
        let d = v.drop_last();
        grant_speaks_for_the_unsure_alone(d, g, home);
        let (p, s) = (sifted(d, g, home), sifted(v, g, home));
        let n = v.len() - 1;
        let c = v.last();
        assert forall|i: int| #[trigger] s.kept.contains(i) <==> p.kept.contains(i) || (i == n
            && s.kept.len() > p.kept.len()) by {
            if p.kept.contains(i) {
                let k = p.kept.index_of(i);
                assert(s.kept[k] == i);
            }
            if i == n && s.kept.len() > p.kept.len() {
                assert(s.kept[p.kept.len() as int] == n);
            }
            if s.kept.contains(i) {
                let k = s.kept.index_of(i);
                if k < p.kept.len() {
                    assert(p.kept[k] == i);
                }
            }
        }
        assert forall|i: int| #[trigger] s.acted.contains(i) <==> p.acted.contains(i) || (i == n
            && s.acted.len() > p.acted.len()) by {
            if p.acted.contains(i) {
                let k = p.acted.index_of(i);
                assert(s.acted[k] == i);
            }
            if i == n && s.acted.len() > p.acted.len() {
                assert(s.acted[p.acted.len() as int] == n);
            }
            if s.acted.contains(i) {
                let k = s.acted.index_of(i);
                if k < p.acted.len() {
                    assert(p.acted[k] == i);
                }
            }
        }
        assert forall|i: int| 0 <= i < d.len() implies d[i] == #[trigger] v[i] && d.take(i)
            == v.take(i) by {
            assert(d.take(i) =~= v.take(i));
        }
        assert(v.take(n) =~= d);
        assert(!p.kept.contains(n) && !p.acted.contains(n));
    }
}

/// Without a grant every survivor is deleted once the run was agreed to.
pub proof fn survivors_are_kept_without_a_grant(
    v: Seq<CandidateView>,
    home: Seq<char>,
    s: ReclaimView,
)
    ensures
        after_grant(v, None, home, s).kept == s.survivors,
        after_grant(v, None, home, s).survivors == s.survivors,
        after_grant(v, None, home, s).deleted == s.deleted,
{
}

/// The ids to be typed again are those of the kept candidates below 0.85, where a low confidence was
/// accepted and no grant speaks.
pub proof fn unsure_ids_are_typed_again(
    v: Seq<CandidateView>,
    unsafe_confidence: bool,
    granted: bool,
    kept: Seq<int>,
    k: int,
)
    requires
        0 <= k < kept.len(),
    ensures
        unsafe_confidence && !granted && v[kept[k]].confidence < 850_000 ==> low_kept(
            v,
            unsafe_confidence,
            granted,
            kept,
        ).contains(kept[k]),
        forall|j: int|
            0 <= j < low_kept(v, unsafe_confidence, granted, kept).len() ==> {
                let i = #[trigger] low_kept(v, unsafe_confidence, granted, kept)[j];
                kept.contains(i) && unsafe_confidence && !granted && v[i].confidence < 850_000
            },
{
    let w = crate::order::arranged(v, kept);
    let flags = crate::reclaim::low_flags(w, unsafe_confidence, granted);
    let m = marked(flags);
    let low = low_kept(v, unsafe_confidence, granted, kept);
    lemma_marked(flags);
    if unsafe_confidence && !granted && v[kept[k]].confidence < 850_000 {
        assert(w[k] == v[kept[k]]);
        assert(flags[k]);
        assert(m.contains(k));
        let t = m.index_of(k);
        assert(low[t] == kept[k]);
    }
    assert forall|j: int| 0 <= j < low.len() implies {
        let i = #[trigger] low[j];
        kept.contains(i) && unsafe_confidence && !granted && v[i].confidence < 850_000
    } by {
        assert(low[j] == kept[m[j]]);
        assert(flags[m[j]] && w[m[j]] == v[kept[m[j]]]);
    }
}

/// Where nothing is sure enough a batch ends with 1, where every pick is blocked with 2, and
/// otherwise with 0.
pub proof fn batch_exits(end: ReclaimEnd)
    ensures
        end_code(end) == 1 <==> end == ReclaimEnd::NoCandidates,
        end_code(end) == 2 <==> end == ReclaimEnd::AllBlocked,
        end_code(end) == 0 || end_code(end) == 1 || end_code(end) == 2,
{
}

/// What is said of a blocked candidate is the note of the first step that failed.
pub proof fn first_failure_is_told(steps: Seq<StepView>, i: int)
    requires
        0 <= i < steps.len(),
        !steps[i].passed,
        forall|j: int| 0 <= j < i ==> (#[trigger] steps[j]).passed,
    ensures
        first_failure(steps) == Some(steps[i].note),
        forall|r: CheckView| r.steps == steps ==> #[trigger] block_note(r) == steps[i].note,
    decreases i,
{
    if i > 0 {
        let rest = steps.drop_first();
        assert forall|j: int| 0 <= j < i - 1 implies (#[trigger] rest[j]).passed by {
            assert(rest[j] == steps[j + 1]);
        }
        assert(steps[0].passed);
        first_failure_is_told(rest, i - 1);
    }
}

/// Once every pick is checked and some survive, a person who is there is asked. Where nobody is, or
/// once they agreed, the ids that are due are asked for, and without any the deletions start; each is
/// tried in its turn until none is left.
pub proof fn agreed_batches_go_on_to_the_end(
    v: Seq<CandidateView>,
    ctx: Context,
    unsafe_confidence: bool,
    grant: Option<Grant>,
    home: Seq<char>,
    s: ReclaimView,
    yes: bool,
)
    ensures
        s.next is Check && s.at + 1 < s.picks.len() ==> reclaim_next(
            v,
            ctx,
            unsafe_confidence,
            grant,
            home,
            s,
            ReclaimEvent::Checked(yes),
        ).next == ReclaimStep::Check(s.picks[s.at as int + 1]),
        s.next is Check && s.at + 1 >= s.picks.len() && (yes || s.survivors.len() > 0) && !ctx.json
            && !ctx.yes ==> reclaim_next(
            v,
            ctx,
            unsafe_confidence,
            grant,
            home,
            s,
            ReclaimEvent::Checked(yes),
        ).next == ReclaimStep::AskConfirm,
        s.next is AskConfirm || (s.next is Check && s.at + 1 >= s.picks.len() && (yes
            || s.survivors.len() > 0) && (ctx.json || ctx.yes)) ==> {
            let e = if s.next is AskConfirm {
                ReclaimEvent::Confirmed(true)
            } else {
                ReclaimEvent::Checked(yes)
            };
            let t = reclaim_next(v, ctx, unsafe_confidence, grant, home, s, e);
            &&& t.low == low_kept(v, unsafe_confidence, grant is Some, t.kept)
            &&& t.low.len() > 0 ==> t.next == ReclaimStep::AskTypedId(t.low[0]) && t.at == 0
            &&& t.low.len() == 0 && t.kept.len() > 0 ==> t.next == ReclaimStep::Delete(t.kept[0])
                && t.at == 0
            &&& t.low.len() == 0 && t.kept.len() == 0 ==> t.next == ReclaimStep::Finish(
                ReclaimEnd::Done,
            )
            &&& grant is None ==> t.kept == t.survivors
            &&& t.deleted == s.deleted
        },
        s.next is AskTypedId ==> {
            let t = reclaim_next(
                v,
                ctx,
                unsafe_confidence,
                grant,
                home,
                s,
                ReclaimEvent::Typed(true),
            );
            &&& s.at + 1 < s.low.len() ==> t.next == ReclaimStep::AskTypedId(s.low[s.at as int + 1])
                && t.at == s.at + 1
            &&& s.at + 1 >= s.low.len() && s.kept.len() > 0 ==> t.next == ReclaimStep::Delete(
                s.kept[0],
            ) && t.at == 0
            &&& t.kept == s.kept && t.low == s.low
        },
        s.next is Delete ==> {
            let t = reclaim_next(
                v,
                ctx,
                unsafe_confidence,
                grant,
                home,
                s,
                ReclaimEvent::Deleted(yes),
            );
            &&& s.at + 1 < s.kept.len() ==> t.next == ReclaimStep::Delete(s.kept[s.at as int + 1]) && t.at
                == s.at + 1
            &&& s.at + 1 >= s.kept.len() ==> t.next == ReclaimStep::Finish(ReclaimEnd::Done)
            &&& t.kept == s.kept
        },
{
}

/// A blocked candidate without a failed step is only called blocked.
pub proof fn blocked_without_a_reason(r: CheckView)
    requires
        forall|j: int| 0 <= j < r.steps.len() ==> (#[trigger] r.steps[j]).passed,
    ensures
        block_note(r) == "blocked"@,
{
    lemma_no_failure(r.steps);
}

proof fn lemma_no_failure(steps: Seq<StepView>)
    requires
        forall|j: int| 0 <= j < steps.len() ==> (#[trigger] steps[j]).passed,
    ensures
        first_failure(steps) is None,
    decreases steps.len(),
{
    if steps.len() > 0 {
        let rest = steps.drop_first();
        assert forall|j: int| 0 <= j < rest.len() implies (#[trigger] rest[j]).passed by {
            assert(rest[j] == steps[j + 1]);
        }
        assert(steps[0].passed);
        lemma_no_failure(rest);
    }
}

} // verus!
