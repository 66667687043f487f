//! What holds of every check of a path.

use crate::check::{
    base_hits, check_exit, check_rows, consequence_rows, decayed, judged, list_hits, steps_of,
    written_within, CheckRowView, DbScan, Observations, Question,
};
use crate::explain::{first_true, recovery_label};
use crate::globs::{glob_matches, literal};
use crate::model::{CheckView, ConsequencesView, StepView};
use crate::paths::{expanded, same_path, under};
use crate::text::decimal;
use crate::time_laws::whole_units_have_gone_by;
use vstd::prelude::*;

verus! {

/// The first mark is one that is set, with none set before it; there is none exactly where no mark
/// is set.
pub proof fn first_mark_is_the_first(hits: Seq<bool>)
    ensures
        match first_true(hits) {
            Some(i) => i < hits.len() && hits[i as int] && forall|j: int|
                0 <= j < i ==> !#[trigger] hits[j],
            None => forall|j: int| 0 <= j < hits.len() ==> !#[trigger] hits[j],
        },
    decreases hits.len(),
{
    if hits.len() > 0 {
        let front = hits.drop_last();
        first_mark_is_the_first(front);
        assert forall|j: int| 0 <= j < front.len() implies front[j] == #[trigger] hits[j] by {}
    }
}

/// A path is safe exactly where each of the five steps passed, and the steps are these, in this
/// order.
pub proof fn safe_needs_every_step(candidate_id: Seq<char>, q: Question, seen: Observations)
    ensures
        ({
            let s = steps_of(q, seen);
            &&& s.len() == 5
            &&& s[0].name == "re-stat"@
            &&& s[1].name == "liveness"@
            &&& s[2].name == "data safety"@
            &&& s[3].name == "profile policy"@
            &&& s[4].name == "project recency"@
            &&& judged(candidate_id, s).steps == s
            &&& judged(candidate_id, s).candidate_id == candidate_id
            &&& judged(candidate_id, s).safe <==> s[0].passed && s[1].passed && s[2].passed
                && s[3].passed && s[4].passed
        }),
{
    let s = steps_of(q, seen);
    if judged(candidate_id, s).safe {
        assert(s[0].passed && s[1].passed && s[2].passed && s[3].passed && s[4].passed);
    }
}

/// A path with an open file is never safe, nor one whose owner is running, nor one that was written
/// to within a day.
pub proof fn used_path_is_never_safe(candidate_id: Seq<char>, q: Question, seen: Observations)
    requires
        (seen.open_file_lines is Some && seen.open_file_lines->0 >= 2) || seen.owner_running
            || seen.recent_write,
    ensures
        !judged(candidate_id, steps_of(q, seen)).safe,
{
    safe_needs_every_step(candidate_id, q, seen);
}

/// The re-stat passes exactly where the path can be read and takes the bytes that were recorded, if
/// any were; the liveness step exactly where the list of open files holds no line beyond its
/// header, the owner is not running and nothing was written of late.
pub proof fn presence_and_quiet_pass(q: Question, seen: Observations)
    ensures
        steps_of(q, seen)[0].passed <==> seen.stat_error is None && (q.recorded is Some
            ==> q.recorded->0 == seen.size_bytes),
        steps_of(q, seen)[1].passed <==> (seen.open_file_lines is Some
            ==> seen.open_file_lines->0 < 2) && !seen.owner_running && !seen.recent_write,
        seen.open_file_lines is Some && seen.open_file_lines->0 >= 2 ==> steps_of(q, seen)[1].note
            == decimal((seen.open_file_lines->0 - 1) as nat) + " open file handle(s)"@,
{
}

/// The data is safe exactly where a rule covers the path and every rule that does says that it comes
/// back by itself, where no database was found, or where the one found is the path itself and a rule
/// without wildcards names it. A search that could not be finished is no proof.
pub proof fn data_is_safe_where_it_comes_back(q: Question, seen: Observations)
    ensures
        ({
            let covered = exists|i: int|
                0 <= i < q.rules.len() && glob_matches(
                    expanded((#[trigger] q.rules[i]).path_pattern, q.home),
                    q.path,
                );
            let regrows = forall|i: int|
                0 <= i < q.rules.len() && glob_matches(
                    expanded((#[trigger] q.rules[i]).path_pattern, q.home),
                    q.path,
                ) ==> q.rules[i].consequences is Some && {
                    let class = q.rules[i].consequences->0.recovery;
                    class == "auto"@ || class == "redownload"@ || class == "rebuild"@ || class
                        == "recreate"@
                };
            let named = exists|i: int|
                0 <= i < q.rules.len() && literal((#[trigger] q.rules[i]).path_pattern)
                    && same_path(expanded(q.rules[i].path_pattern, q.home), q.path);
            steps_of(q, seen)[2].passed <==> (covered && regrows) || seen.databases is Clean || (
            seen.databases is Found && same_path(seen.databases->Found_0@, q.path) && named)
        }),
{
    let hits = crate::explain::pattern_hits(q.rules, q.path, q.home);
    assert forall|i: int| 0 <= i < q.rules.len() implies #[trigger] hits[i] == glob_matches(
        expanded(q.rules[i].path_pattern, q.home),
        q.path,
    ) by {}
    if exists|i: int|
        0 <= i < q.rules.len() && glob_matches(
            expanded((#[trigger] q.rules[i]).path_pattern, q.home),
            q.path,
        ) {
        let i = choose|i: int|
            0 <= i < q.rules.len() && glob_matches(
                expanded((#[trigger] q.rules[i]).path_pattern, q.home),
                q.path,
            );
        assert(hits[i]);
    }
    if crate::check::vouched(q.rules, hits) {
        let i = choose|i: int| 0 <= i < q.rules.len() && i < hits.len() && #[trigger] hits[i];
        assert(glob_matches(expanded(q.rules[i].path_pattern, q.home), q.path));
        assert forall|i: int|
            0 <= i < q.rules.len() && glob_matches(
                expanded((#[trigger] q.rules[i]).path_pattern, q.home),
                q.path,
            ) implies q.rules[i].consequences is Some && {
            let class = q.rules[i].consequences->0.recovery;
            class == "auto"@ || class == "redownload"@ || class == "rebuild"@ || class
                == "recreate"@
        } by {
            assert(hits[i]);
        }
    }
}

/// No policy blocks a path exactly where no secret store and no never-suggest entry holds it and no
/// never-touch pattern accepts it.
pub proof fn policy_blocks_what_it_lists(q: Question, seen: Observations)
    ensures
        steps_of(q, seen)[3].passed <==> {
            &&& forall|i: int|
                0 <= i < q.secret_stores.len() ==> !under(
                    q.path,
                    expanded(#[trigger] q.secret_stores[i], q.home),
                )
            &&& forall|i: int|
                0 <= i < q.prof.never_touch.len() ==> !glob_matches(
                    expanded(#[trigger] q.prof.never_touch[i], q.home),
                    q.path,
                )
            &&& forall|i: int|
                0 <= i < q.prof.never_suggest.len() ==> !under(
                    q.path,
                    expanded(#[trigger] q.prof.never_suggest[i], q.home),
                )
        },
{
    let a = crate::check::base_hits(q.path, q.secret_stores, q.home);
    let b = crate::check::list_hits(q.path, q.prof.never_touch, q.home);
    let c = crate::check::base_hits(q.path, q.prof.never_suggest, q.home);
    first_mark_is_the_first(a);
    first_mark_is_the_first(b);
    first_mark_is_the_first(c);
    assert forall|i: int| 0 <= i < q.secret_stores.len() implies under(
        q.path,
        expanded(#[trigger] q.secret_stores[i], q.home),
    ) == a[i] by {}
    assert forall|i: int| 0 <= i < q.prof.never_touch.len() implies glob_matches(
        expanded(#[trigger] q.prof.never_touch[i], q.home),
        q.path,
    ) == b[i] by {}
    assert forall|i: int| 0 <= i < q.prof.never_suggest.len() implies under(
        q.path,
        expanded(#[trigger] q.prof.never_suggest[i], q.home),
    ) == c[i] by {}
}

proof fn lemma_nearest_head(heads: Seq<Option<i64>>)
    ensures
        match crate::check::nearest_head(heads) {
            Some(t) => exists|i: int|
                0 <= i < heads.len() && #[trigger] heads[i] == Some(t) && forall|j: int|
                    0 <= j < i ==> (#[trigger] heads[j]) is None,
            None => forall|j: int| 0 <= j < heads.len() ==> (#[trigger] heads[j]) is None,
        },
    decreases heads.len(),
{
    if heads.len() > 0 {
        if heads[0] is None {
            let rest = heads.drop_first();
            lemma_nearest_head(rest);
            match crate::check::nearest_head(rest) {
                Some(t) => {
                    let i = choose|i: int|
                        0 <= i < rest.len() && #[trigger] rest[i] == Some(t) && forall|j: int|
                            0 <= j < i ==> (#[trigger] rest[j]) is None;
                    assert(heads[i + 1] == Some(t));
                    assert forall|j: int| 0 <= j < i + 1 implies (#[trigger] heads[j]) is None by {
                        if j > 0 {
                            assert(rest[j - 1] == heads[j]);
                        }
                    }
                },
                None => {
                    assert forall|j: int| 0 <= j < heads.len() implies (#[trigger] heads[j]) is None
                        by {
                        if j > 0 {
                            assert(rest[j - 1] == heads[j]);
                        }
                    }
                },
            }
        } else {
            assert(heads[0] == Some(heads[0]->0));
        }
    }
}

/// A project is quiet exactly where no directory around the path is a repository, or the nearest
/// that is was last used a week ago or earlier.
pub proof fn project_is_quiet_after_a_week(q: Question, seen: Observations)
    ensures
        steps_of(q, seen)[4].passed <==> forall|i: int|
            0 <= i < seen.git_heads@.len() && (#[trigger] seen.git_heads@[i]) is Some && (forall|
                j: int,
            |
                0 <= j < i ==> (#[trigger] seen.git_heads@[j]) is None) ==> q.now
                - seen.git_heads@[i]->0 >= 604_800_000_000_000,
{
    let heads = seen.git_heads@;
    lemma_nearest_head(heads);
    match crate::check::nearest_head(heads) {
        Some(t) => {
            whole_units_have_gone_by(q.now, t, 7);
            let n = choose|i: int|
                0 <= i < heads.len() && #[trigger] heads[i] == Some(t) && forall|j: int|
                    0 <= j < i ==> (#[trigger] heads[j]) is None;
            assert forall|i: int|
                0 <= i < heads.len() && (#[trigger] heads[i]) is Some && (forall|j: int|
                    0 <= j < i ==> (#[trigger] heads[j]) is None) implies heads[i] == Some(t) by {
                if i < n {
                    assert(heads[i] is None);
                }
                if n < i {
                    assert(heads[n] is None);
                }
            }
            assert(heads[n] is Some);
        },
        None => {},
    }
}

/// A check starts from full confidence, and every failed step halves it.
pub proof fn failures_halve_the_confidence(steps: Seq<StepView>, s: StepView)
    ensures
        decayed(Seq::empty()) == 1_000_000,
        decayed(steps.push(s)) == if s.passed {
            decayed(steps)
        } else {
            decayed(steps) / 2
        },
{
    assert(steps.push(s).drop_last() =~= steps);
}

/// A safe path ends a check with 0, one that only the profile's policy blocks with 3, and every
/// other with 2.
pub proof fn exit_tells_policy_from_danger(candidate_id: Seq<char>, q: Question, seen: Observations)
    ensures
        ({
            let s = steps_of(q, seen);
            let exit = check_exit(judged(candidate_id, s).safe, s);
            &&& exit == 0 <==> s[0].passed && s[1].passed && s[2].passed && s[3].passed
                && s[4].passed
            &&& exit == 3 <==> s[0].passed && s[1].passed && s[2].passed && !s[3].passed
                && s[4].passed
            &&& exit == 0 || exit == 2 || exit == 3
        }),
{
    let s = steps_of(q, seen);
    safe_needs_every_step(candidate_id, q, seen);
    reveal_strlit("re-stat");
    reveal_strlit("liveness");
    reveal_strlit("data safety");
    reveal_strlit("profile policy");
    reveal_strlit("project recency");
    assert("re-stat"@.len() == 7 && "liveness"@.len() == 8 && "data safety"@.len() == 11
        && "profile policy"@.len() == 14 && "project recency"@.len() == 15);
    let only = crate::check::only_policy_failed(s);
    if only {
        assert(s[0].passed && s[1].passed && s[2].passed && s[4].passed);
        let i = choose|i: int| 0 <= i < s.len() && !(#[trigger] s[i]).passed;
        assert(i == 3);
    }
    if s[0].passed && s[1].passed && s[2].passed && !s[3].passed && s[4].passed {
        assert forall|i: int| 0 <= i < s.len() && !(#[trigger] s[i]).passed implies s[i].name
            == "profile policy"@ by {
            assert(i == 3);
        }
    }
}

/// Something was written within the last hours exactly where some file is younger than that.
pub proof fn writes_count_for_their_hours(mtimes: Seq<i64>, hours: u32, now: i64)
    ensures
        written_within(mtimes, hours, now) <==> exists|i: int|
            0 <= i < mtimes.len() && now - #[trigger] mtimes[i] < hours * 3_600_000_000_000,
{
    if exists|i: int|
        0 <= i < mtimes.len() && now - #[trigger] mtimes[i] < hours * 3_600_000_000_000 {
        let i = choose|i: int|
            0 <= i < mtimes.len() && now - #[trigger] mtimes[i] < hours * 3_600_000_000_000;
        assert(mtimes[i] > now - hours * 3_600_000_000_000);
    }
}

/// The report of a check shows every step in its order, and offers a removal exactly where the path
/// is safe.
pub proof fn report_offers_only_safe_paths(r: CheckView, i: int)
    requires
        0 <= i < r.steps.len(),
    ensures
        ({
            let rows = check_rows(r);
            &&& rows.len() >= r.steps.len() + 2
            &&& rows[i + 1] == (CheckRowView::Step {
                passed: r.steps[i].passed,
                name: r.steps[i].name,
                note: r.steps[i].note,
            })
            &&& rows[r.steps.len() as int + 1] is Safe <==> r.safe
            &&& rows[r.steps.len() as int + 1] is Unsafe <==> !r.safe
            &&& rows.last() is Next <==> r.safe
        }),
{
    let rows = check_rows(r);
    let n = r.steps.len() as int;
    let extra = crate::check::consequence_rows(r.consequences);
    if !r.safe {
        if extra.len() == 0 {
            assert(rows.last() == rows[n + 1]);
        } else {
            assert(rows.last() == extra.last());
        }
    }
}

/// A check that was just made tells its confidence and nothing of what a removal would cost; what it
/// found follows from the steps alone.
pub proof fn verdicts_follow_from_the_steps(candidate_id: Seq<char>, steps: Seq<StepView>)
    ensures
        judged(candidate_id, steps).safe <==> forall|i: int|
            0 <= i < steps.len() ==> (#[trigger] steps[i]).passed,
        decayed(steps) <= 1_000_000,
        judged(candidate_id, steps).confidence == decayed(steps),
        judged(candidate_id, steps).consequences is None,
        judged(candidate_id, steps).consequence_contract is None,
        judged(candidate_id, steps).metrics is None,
{
    lemma_decayed_bound(steps);
}

proof fn lemma_decayed_bound(steps: Seq<StepView>)
    ensures
        decayed(steps) <= 1_000_000,
    decreases steps.len(),
{
    if steps.len() > 0 {
        lemma_decayed_bound(steps.drop_last());
    }
}

/// A failed step says what it found: what could not be read, what changed, who uses the path, or what
/// it holds.
pub proof fn failed_steps_tell_what_they_found(q: Question, seen: Observations)
    ensures
        ({
            let s = steps_of(q, seen);
            &&& seen.stat_error matches Some(e) ==> s[0].note == "cannot stat: "@ + e@
            &&& seen.stat_error is None && q.recorded is Some && q.recorded->0 != seen.size_bytes
                ==> s[0].note == "size changed since detect: "@ + decimal(q.recorded->0 as nat)
                + " bytes then, "@ + decimal(seen.size_bytes as nat) + " bytes now"@
            &&& s[0].passed ==> s[0].note == "path exists and is readable"@
            &&& (seen.open_file_lines is None || seen.open_file_lines->0 <= 1) && seen.owner_running
                ==> s[1].note == "owning process is running"@
            &&& (seen.open_file_lines is None || seen.open_file_lines->0 <= 1) && !seen.owner_running
                && seen.recent_write ==> s[1].note == "files modified within last 24h"@
            &&& s[1].passed ==> s[1].note == "no open handles · no recent writes"@
            &&& !s[2].passed && seen.databases is Inconclusive ==> s[2].note
                == "too large to verify database-free — refused (fail-closed)"@
            &&& seen.databases matches DbScan::Found(db) ==> !s[2].passed ==> s[2].note
                == "contains a database ("@ + db@ + ") — never auto-deleted"@
        }),
{
}

/// Where policy blocks a path, the first entry that does is named, and the secret stores come before
/// what is never touched, and that before what is never suggested.
pub proof fn policy_names_what_blocks(q: Question, seen: Observations, i: nat)
    ensures
        ({
            let (store, touch, suggest) = (
                first_true(base_hits(q.path, q.secret_stores, q.home)),
                first_true(list_hits(q.path, q.prof.never_touch, q.home)),
                first_true(base_hits(q.path, q.prof.never_suggest, q.home)),
            );
            let note = steps_of(q, seen)[3].note;
            &&& store == Some(i) ==> note == "built-in never_touch (secret store): "@
                + q.secret_stores[i as int]
            &&& store is None && touch == Some(i) ==> note == "blocked by never_touch: "@
                + q.prof.never_touch[i as int]
            &&& store is None && touch is None && suggest == Some(i) ==> note
                == "marked never_suggest: "@ + q.prof.never_suggest[i as int]
            &&& store is None && touch is None && suggest is None ==> note == "no policy blocks"@
        }),
{
}

/// A report tells what deleting means: what it would take to come back, what would be lost, and the
/// command that brings it back where there is one.
pub proof fn reports_tell_the_consequences(c: ConsequencesView)
    ensures
        consequence_rows(None).len() == 0,
        ({
            let rows = consequence_rows(Some(c));
            &&& rows.len() == if c.recovery_cmd is Some {
                4int
            } else {
                3
            }
            &&& rows[0] == CheckRowView::Heading("if you delete this"@)
            &&& rows[1] == (CheckRowView::Field {
                label: "recovery"@,
                value: recovery_label(c.recovery, c.rebuild_seconds),
            })
            &&& rows[2] == (CheckRowView::Field { label: "impact"@, value: c.impact })
            &&& c.recovery_cmd is Some ==> rows[3] == (CheckRowView::Field {
                label: "recover"@,
                value: c.recovery_cmd->0,
            })
        }),
{
}

} // verus!
