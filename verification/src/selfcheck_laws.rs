//! What holds of every run of the self-check.

use crate::paths::under;
use crate::selfcheck::{
    failures, first_escalation, first_pattern, first_stray, full_lines, g1_view, g2_view, g3_view,
    g4_view, g5_view, g6_view, g7_view, hundredths, judged, keyed, named_views, not_blank,
    ten_thousandths, with_four_decimals, with_two_decimals, CriterionView, GrowthTrial, KeyedSample,
    Provenance, RenameView, RollupsView, Trials,
};
use crate::text::{decimal, occurs, trimmed};
use vstd::prelude::*;

verus! {

/// The confidences pass exactly where each is its documented weight and a full walk counts for more
/// than a second look, and that for more than an incremental one.
pub proof fn confidences_pass_where_they_match(e: Result<Provenance, Seq<char>>)
    ensures
        g1_view(e).pass <==> (e matches Ok(p) && p.full == p.weight_full && p.restat
            == p.weight_restat && p.incremental == p.weight_incremental && p.full > p.restat
            && p.restat > p.incremental),
{
}

/// The rollups pass exactly where a second run changes nothing and a new one from the raw series gives
/// the same bytes.
pub proof fn rollups_pass_where_they_are_recomputable(e: Result<RollupsView, Seq<char>>)
    ensures
        g2_view(e).pass <==> (e matches Ok(t) && t.first == t.second && t.first_mark
            == t.second_mark && t.first == t.recomputed),
{
}

/// In-place growth passes exactly where the file grew, a second look caught it, and the scan was not
/// widened.
pub proof fn growth_passes_where_it_was_caught(e: Result<GrowthTrial, Seq<char>>)
    ensures
        g3_view(e).pass <==> (e matches Ok(t) && t.after > t.before && t.restat && !t.widened),
{
}

/// A rename passes exactly where it kept its key, was not read as another file, left two samples of one
/// series with no mark of its end, and the one that vanished is marked.
pub proof fn renames_pass_where_they_go_on(e: Result<RenameView, Seq<char>>)
    ensures
        g4_view(e).pass <==> (e matches Ok(t) && t.same_key && !t.read_as_reuse && keyed(
            t.samples,
            t.renamed,
        ) == 2 && (forall|i: int|
            0 <= i < t.samples.len() && (#[trigger] t.samples[i]).inode == Some(t.renamed)
                ==> !t.samples[i].tombstone) && (exists|i: int|
            0 <= i < t.samples.len() && (#[trigger] t.samples[i]).inode == Some(t.vanished)
                && t.samples[i].tombstone)),
{
}

/// A sample counts for the key that it has.
pub proof fn samples_count_for_their_key(v: Seq<KeyedSample>, s: KeyedSample, key: (u64, u64))
    ensures
        keyed(Seq::empty(), key) == 0,
        s.inode == Some(key) ==> keyed(v.push(s), key) == keyed(v, key) + 1,
        s.inode != Some(key) ==> keyed(v.push(s), key) == keyed(v, key),
{
    assert(v.push(s).drop_last() =~= v);
}

/// Appends pass exactly where as many lines were written, and as many read, as were expected; a line of
/// blanks is none.
pub proof fn appends_pass_where_no_line_is_torn(
    e: Result<(nat, Seq<char>, nat), Seq<char>>,
    lines: Seq<Seq<char>>,
    line: Seq<char>,
)
    ensures
        g5_view(e).pass <==> (e matches Ok((expected, raw, parsed)) && full_lines(raw) == expected
            && parsed == expected),
        not_blank(Seq::empty()) == 0,
        trimmed(line).len() > 0 ==> not_blank(lines.push(line)) == not_blank(lines) + 1,
        trimmed(line).len() == 0 ==> not_blank(lines.push(line)) == not_blank(lines),
{
    assert(lines.push(line).drop_last() =~= lines);
}

proof fn lemma_first_stray(data: Seq<char>, paths: Seq<(Seq<char>, Seq<char>)>)
    ensures
        first_stray(data, paths) is None <==> forall|i: int|
            0 <= i < paths.len() ==> under((#[trigger] paths[i]).1, data),
    decreases paths.len(),
{
    if paths.len() > 0 {
        let rest = paths.drop_first();
        lemma_first_stray(data, rest);
        assert forall|i: int| 0 <= i < rest.len() implies #[trigger] rest[i] == paths[i + 1] by {}
        if first_stray(data, paths) is None {
            assert forall|i: int| 0 <= i < paths.len() implies under(
                (#[trigger] paths[i]).1,
                data,
            ) by {
                if i > 0 {
                    assert(rest[i - 1] == paths[i]);
                }
            }
        }
    }
}

proof fn lemma_first_pattern(text: Seq<char>, patterns: Seq<Seq<char>>)
    ensures
        first_pattern(text, patterns) is None <==> forall|i: int|
            0 <= i < patterns.len() ==> !occurs(text, #[trigger] patterns[i]),
    decreases patterns.len(),
{
    if patterns.len() > 0 {
        let rest = patterns.drop_first();
        lemma_first_pattern(text, rest);
        assert forall|i: int| 0 <= i < rest.len() implies #[trigger] rest[i] == patterns[i + 1] by {}
        if first_pattern(text, patterns) is None {
            assert forall|i: int| 0 <= i < patterns.len() implies !occurs(
                text,
                #[trigger] patterns[i],
            ) by {
                if i > 0 {
                    assert(rest[i - 1] == patterns[i]);
                }
            }
        }
    }
}

proof fn lemma_first_escalation(sources: Seq<(Seq<char>, Seq<char>)>)
    ensures
        first_escalation(sources) is None <==> forall|i: int|
            0 <= i < sources.len() ==> first_pattern(
                (#[trigger] sources[i]).1,
                crate::selfcheck::escalations(),
            ) is None,
    decreases sources.len(),
{
    if sources.len() > 0 {
        let rest = sources.drop_first();
        lemma_first_escalation(rest);
        assert forall|i: int| 0 <= i < rest.len() implies #[trigger] rest[i] == sources[i + 1] by {}
        if first_escalation(sources) is None {
            assert forall|i: int| 0 <= i < sources.len() implies first_pattern(
                (#[trigger] sources[i]).1,
                crate::selfcheck::escalations(),
            ) is None by {
                if i > 0 {
                    assert(rest[i - 1] == sources[i]);
                }
            }
        }
    }
}

/// The scope passes exactly where every path lies under the data directory and no source names a way to
/// other rights.
pub proof fn scope_passes_where_nothing_leaves_home(
    data: Seq<char>,
    paths: Seq<(Seq<char>, Seq<char>)>,
    sources: Seq<(Seq<char>, Seq<char>)>,
)
    ensures
        g6_view(data, paths, sources).pass <==> (forall|i: int|
            0 <= i < paths.len() ==> under((#[trigger] paths[i]).1, data)) && (forall|i: int|
            0 <= i < sources.len() ==> {
                let text = (#[trigger] sources[i]).1;
                !occurs(text, "Command::new(\"sudo\")"@) && !occurs(text, "\"/usr/bin/sudo\""@)
                    && !occurs(text, "setuid"@) && !occurs(text, "seteuid"@) && !occurs(
                    text,
                    "geteuid"@,
                ) && !occurs(text, "CommandExt"@)
            }),
{
    lemma_first_stray(data, paths);
    lemma_first_escalation(sources);
    let ps = crate::selfcheck::escalations();
    assert(ps.len() == 6);
    assert(ps[0] == "Command::new(\"sudo\")"@ && ps[1] == "\"/usr/bin/sudo\""@ && ps[2]
        == "setuid"@ && ps[3] == "seteuid"@ && ps[4] == "geteuid"@ && ps[5] == "CommandExt"@);
    assert forall|i: int| 0 <= i < sources.len() implies (first_pattern(
        (#[trigger] sources[i]).1,
        ps,
    ) is None <==> {
        let text = sources[i].1;
        !occurs(text, "Command::new(\"sudo\")"@) && !occurs(text, "\"/usr/bin/sudo\""@) && !occurs(
            text,
            "setuid"@,
        ) && !occurs(text, "seteuid"@) && !occurs(text, "geteuid"@) && !occurs(text, "CommandExt"@)
    }) by {
        lemma_first_pattern(sources[i].1, ps);
        let text = sources[i].1;
        if first_pattern(text, ps) is None {
            assert(!occurs(text, ps[0]) && !occurs(text, ps[1]) && !occurs(text, ps[2]) && !occurs(
                text,
                ps[3],
            ) && !occurs(text, ps[4]) && !occurs(text, ps[5]));
        }
    }
}

/// The cost passes exactly where the tick stayed incremental and took less than two seconds.
pub proof fn cost_passes_below_its_budget(e: Result<(bool, u64, Seq<char>), Seq<char>>)
    ensures
        g7_view(e).pass <==> (e matches Ok((widened, nanos, shown)) && !widened && nanos
            < 2_000_000_000),
{
}

/// A failed criterion counts once, and a passed one not at all.
pub proof fn failures_are_counted(v: Seq<CriterionView>, c: CriterionView)
    ensures
        failures(Seq::empty()) == 0,
        failures(v.push(c)) == failures(v) + if c.pass {
            0nat
        } else {
            1
        },
{
    assert(v.push(c).drop_last() =~= v);
}

/// Shares are rounded to the nearest digit that is shown.
pub proof fn decimals_round_to_the_nearest(n: u32)
    ensures
        -5_000 <= hundredths(n) * 10_000 - n <= 5_000,
        -50 <= ten_thousandths(n) * 100 - n <= 50,
{
}

/// A trial that could not be made fails its criterion, and what went wrong is told.
pub proof fn failed_trials_fail_their_criterion(m: Seq<char>)
    ensures
        g1_view(Err(m)).detail == m && g1_view(Err(m)).criterion == "G1"@,
        g2_view(Err(m)).detail == m && g2_view(Err(m)).criterion == "G2"@,
        g3_view(Err(m)).detail == m && g3_view(Err(m)).criterion == "G3"@,
        g4_view(Err(m)).detail == m && g4_view(Err(m)).criterion == "G4"@,
        g5_view(Err(m)).detail == m && g5_view(Err(m)).criterion == "G5"@,
        g7_view(Err(m)).detail == m && g7_view(Err(m)).criterion == "G7"@,
{
}

/// A number that lies in the middle between two that are shown is shown as the even one; the part
/// behind the point has its full width.
pub proof fn middles_are_shown_as_even(n: u32)
    ensures
        n % 10_000 == 5_000 ==> hundredths(n) % 2 == 0,
        n % 100 == 50 ==> ten_thousandths(n) % 2 == 0,
        hundredths(n) % 100 >= 10 ==> with_two_decimals(n) == decimal(hundredths(n) / 100) + "."@
            + decimal(hundredths(n) % 100),
        hundredths(n) % 100 < 10 ==> with_two_decimals(n) == decimal(hundredths(n) / 100) + "."@
            + ("0"@ + decimal(hundredths(n) % 100)),
{
}

/// What is told of a stray path is told of the first one.
pub proof fn first_stray_is_told(data: Seq<char>, paths: Seq<(Seq<char>, Seq<char>)>, i: int)
    requires
        0 <= i < paths.len(),
        !under(paths[i].1, data),
        forall|j: int| 0 <= j < i ==> under((#[trigger] paths[j]).1, data),
    ensures
        first_stray(data, paths) == Some(paths[i]),
    decreases i,
{
    if i > 0 {
        let rest = paths.drop_first();
        assert(under(paths[0].1, data));
        assert(rest[i - 1] == paths[i]);
        assert forall|j: int| 0 <= j < i - 1 implies under((#[trigger] rest[j]).1, data) by {
            assert(rest[j] == paths[j + 1]);
        }
        first_stray_is_told(data, rest, i - 1);
    }
}

/// Each criterion judges its own trial, by what was seen there.
pub proof fn criteria_judge_their_trials(t: Trials)
    ensures
        ({
            let j = judged(Ok(t));
            &&& j[0].pass <==> (t.provenance matches Ok(p) && p.full == p.weight_full && p.restat
                == p.weight_restat && p.incremental == p.weight_incremental && p.full > p.restat
                && p.restat > p.incremental)
            &&& j[1].pass <==> (t.rollups matches Ok(r) && r.first@ == r.second@ && r.first_mark@
                == r.second_mark@ && r.first@ == r.recomputed@)
            &&& j[2].pass <==> (t.growth matches Ok(g) && g.after > g.before && g.restat
                && !g.widened)
            &&& j[4].pass <==> (t.append matches Ok(a) && full_lines(a.raw@) == a.expected
                && a.parsed == a.expected)
            &&& j[5] == g6_view(t.data_dir@, named_views(t.paths@), named_views(t.sources@))
            &&& j[6].pass <==> (t.cost matches Ok(c) && !c.widened && c.elapsed_nanos
                < 2_000_000_000)
            &&& t.rename matches Ok(r) ==> j[3].pass ==> r.same_key && !r.read_as_reuse && keyed(
                r.samples@,
                r.renamed,
            ) == 2
        }),
{
}

/// Confidences that do not match are told beside what was wanted.
pub proof fn mismatches_are_told(p: Provenance)
    requires
        !g1_view(Ok(p)).pass,
    ensures
        g1_view(Ok(p)).detail == "weighting/monotonicity mismatch: Full="@ + with_four_decimals(
            p.full,
        ) + " (want "@ + with_four_decimals(p.weight_full) + "), Restat="@ + with_four_decimals(
            p.restat,
        ) + " (want "@ + with_four_decimals(p.weight_restat) + "), Incremental="@
            + with_four_decimals(p.incremental) + " (want "@ + with_four_decimals(
            p.weight_incremental,
        ) + ")"@,
{
}

} // verus!
