//! What holds of what is shown: rankings, totals, advice and rounded numbers.

use crate::detect::risk_rank;
use crate::explain::{percent, recommendation, recovery_label};
use crate::model::{total_size, CandidateView, Category, EntryView};
use crate::order::{before, lemma_stable_order, stable_order};
use crate::report::{
    bytes_in, count_in, rank_orders_by_score_and_risk, ranked, rollup, row_of, supply_code,
    DetectRow,
};
use crate::scan::{bytes_in_category, rows_in_order, scanned_bytes, summary};
use crate::text::{decimal, decimal_int, split_on, trimmed};
use crate::top::{
    filled_of, frees, greatest, least, mean, outlook_of, since, sum_of, thinned, BurnRate, DfSample,
    Outlook,
};
use crate::welcome::{marker_of, relative_age, whole_percent, DiskMarker};
use crate::wizard::{choices, chosen_domains, labels_at, named_choice, named_choices, selection};
use vstd::prelude::*;

verus! {

// ---------------------------------------------------------------------------
// Candidates
// ---------------------------------------------------------------------------
/// Candidates are ranked by size times confidence, and equal ones by how costly their loss is.
pub proof fn ranked_by_what_is_at_stake(v: Seq<CandidateView>, i: int, j: int)
    requires
        0 <= i < j < ranked(v).len(),
    ensures
        ({
            let (a, b) = (ranked(v)[i], ranked(v)[j]);
            let (x, y) = (
                a.size_bytes as nat * a.confidence as nat,
                b.size_bytes as nat * b.confidence as nat,
            );
            x > y || (x == y && risk_rank(a.recovery_class()) <= risk_rank(b.recovery_class()))
        }),
{
    rank_orders_by_score_and_risk(v, i, j);
}

/// A candidate's class is the one that its contract states, else the one that its rule declares, else
/// none.
pub proof fn class_is_the_stated_one(c: CandidateView)
    ensures
        c.consequence_contract is Some ==> c.recovery_class()
            == c.consequence_contract->0.recovery_class,
        c.consequence_contract is None && c.consequences is Some ==> c.recovery_class()
            == c.consequences->0.recovery,
        c.consequence_contract is None && c.consequences is None ==> c.recovery_class().len() == 0,
{
}

/// Each candidate counts once, with its bytes, and under its own category alone.
pub proof fn totals_count_each_candidate(
    v: Seq<CandidateView>,
    c: CandidateView,
    category: Category,
)
    ensures
        total_size(Seq::empty()) == 0,
        total_size(v.push(c)) == total_size(v) + c.size_bytes,
        count_in(Seq::empty(), category) == 0,
        bytes_in(Seq::empty(), category) == 0,
        c.category == category ==> count_in(v.push(c), category) == count_in(v, category) + 1
            && bytes_in(v.push(c), category) == bytes_in(v, category) + c.size_bytes,
        c.category != category ==> count_in(v.push(c), category) == count_in(v, category)
            && bytes_in(v.push(c), category) == bytes_in(v, category),
{
    assert(v.push(c).drop_last() =~= v);
}

proof fn lemma_rollup(v: Seq<CandidateView>, n: int)
    requires
        0 <= n <= 5,
    ensures
        forall|k: int|
            0 <= k < rollup(v, n).len() ==> {
                let r = #[trigger] rollup(v, n)[k];
                r.1 == count_in(v, r.0) && r.2 == bytes_in(v, r.0) && r.1 > 0
            },
        forall|m: int|
            0 <= m < n && count_in(v, #[trigger] crate::report::categories()[m]) > 0 ==> rollup(
                v,
                n,
            ).contains(
                (
                    crate::report::categories()[m],
                    count_in(v, crate::report::categories()[m]),
                    bytes_in(v, crate::report::categories()[m]),
                ),
            ),
    decreases n,
{
    if n > 0 {
        lemma_rollup(v, n - 1);
        let (a, b) = (rollup(v, n - 1), rollup(v, n));
        let cs = crate::report::categories();
        assert forall|k: int| 0 <= k < b.len() implies {
            let r = #[trigger] b[k];
            r.1 == count_in(v, r.0) && r.2 == bytes_in(v, r.0) && r.1 > 0
        } by {
            if k < a.len() {
                assert(b[k] == a[k]);
            }
        }
        assert forall|m: int| 0 <= m < n && count_in(v, #[trigger] cs[m]) > 0 implies b.contains(
            (cs[m], count_in(v, cs[m]), bytes_in(v, cs[m])),
        ) by {
            let r = (cs[m], count_in(v, cs[m]), bytes_in(v, cs[m]));
            if m < n - 1 {
                assert(a.contains(r));
                let k = a.index_of(r);
                assert(b[k] == r);
            } else {
                assert(b[b.len() - 1] == r);
            }
        }
    }
}

/// The rollup has a row for exactly the categories that candidates have, with their number and bytes.
pub proof fn rollup_has_every_category(v: Seq<CandidateView>, category: Category)
    ensures
        count_in(v, category) > 0 ==> rollup(v, 5).contains(
            (category, count_in(v, category), bytes_in(v, category)),
        ),
        forall|k: int|
            0 <= k < rollup(v, 5).len() ==> {
                let r = #[trigger] rollup(v, 5)[k];
                r.1 == count_in(v, r.0) && r.2 == bytes_in(v, r.0) && r.1 > 0
            },
{
    lemma_rollup(v, 5);
    let cs = crate::report::categories();
    assert(cs[0] == Category::AppCache && cs[1] == Category::DevArtifact && cs[2]
        == Category::DownloadEntropy && cs[3] == Category::Unknown && cs[4] == Category::VmDisk);
    assert(exists|m: int| 0 <= m < 5 && #[trigger] cs[m] == category) by {
        match category {
            Category::AppCache => {
                assert(cs[0] == category);
            },
            Category::DevArtifact => {
                assert(cs[1] == category);
            },
            Category::DownloadEntropy => {
                assert(cs[2] == category);
            },
            Category::Unknown => {
                assert(cs[3] == category);
            },
            Category::VmDisk => {
                assert(cs[4] == category);
            },
        }
    }
}

/// A list with nothing in it ends a command with 1, and every other with 0.
pub proof fn empty_supply_is_told(count: nat)
    ensures
        supply_code(count) == 1 <==> count == 0,
        supply_code(count) == 0 <==> count > 0,
{
}

// ---------------------------------------------------------------------------
// Scans
// ---------------------------------------------------------------------------
/// An entry of a scan counts with its bytes, under its own category alone.
pub proof fn scan_counts_each_entry(v: Seq<EntryView>, e: EntryView, category: Category)
    ensures
        scanned_bytes(Seq::empty()) == 0,
        scanned_bytes(v.push(e)) == scanned_bytes(v) + e.size_bytes,
        bytes_in_category(Seq::empty(), category) == 0,
        e.category == category ==> bytes_in_category(v.push(e), category) == bytes_in_category(
            v,
            category,
        ) + e.size_bytes,
        e.category != category ==> bytes_in_category(v.push(e), category) == bytes_in_category(
            v,
            category,
        ),
{
    assert(v.push(e).drop_last() =~= v);
}

/// The summary of a scan has a row for exactly the categories that hold bytes, the largest first.
pub proof fn summary_has_every_category(v: Seq<EntryView>, category: Category)
    requires
        scanned_bytes(v) < 0x1_0000_0000_0000_0000 * 0x1_0000_0000_0000_0000,
    ensures
        bytes_in_category(v, category) > 0 ==> summary(v).contains(
            (category, bytes_in_category(v, category)),
        ),
        forall|k: int|
            0 <= k < summary(v).len() ==> {
                let r = #[trigger] summary(v)[k];
                r.1 == bytes_in_category(v, r.0) && r.1 > 0
            },
        forall|a: int, b: int|
            0 <= a < b < summary(v).len() ==> (#[trigger] summary(v)[a]).1 >= (
            #[trigger] summary(v)[b]).1,
{
    let rows = rows_in_order(v);
    let keys = crate::scan::byte_keys(rows);
    let o = stable_order(keys);
    let s = summary(v);
    lemma_stable_order(keys);
    lemma_rows(v);
    if bytes_in_category(v, category) > 0 {
        let r = (category, bytes_in_category(v, category));
        assert(rows.contains(r));
        let p = rows.index_of(r);
        assert(o.contains(p));
        let k = o.index_of(p);
        assert(s[k] == r);
    }
    assert forall|k: int| 0 <= k < s.len() implies {
        let r = #[trigger] s[k];
        r.1 == bytes_in_category(v, r.0) && r.1 > 0
    } by {
        assert(s[k] == rows[o[k]]);
    }
    assert forall|a: int, b: int| 0 <= a < b < s.len() implies (#[trigger] s[a]).1 >= (
    #[trigger] s[b]).1 by {
        assert(before(keys, o[a], o[b]));
        assert(s[a] == rows[o[a]] && s[b] == rows[o[b]]);
        crate::scan::categories_divide_the_scan(v);
        crate::drill::lemma_falling(s[a].1, s[b].1);
    }
}

proof fn lemma_rows(v: Seq<EntryView>)
    ensures
        forall|k: int|
            0 <= k < rows_in_order(v).len() ==> {
                let r = #[trigger] rows_in_order(v)[k];
                r.1 == bytes_in_category(v, r.0) && r.1 > 0
            },
        forall|c: Category| #[trigger]
            bytes_in_category(v, c) > 0 ==> rows_in_order(v).contains(
                (c, bytes_in_category(v, c)),
            ),
{
    let a = crate::scan::row_for(v, Category::DevArtifact);
    let b = crate::scan::row_for(v, Category::AppCache);
    let c = crate::scan::row_for(v, Category::DownloadEntropy);
    let d = crate::scan::row_for(v, Category::VmDisk);
    let e = crate::scan::row_for(v, Category::Unknown);
    let rows = rows_in_order(v);
    let (ab, abc) = (a + b, a + b + c);
    let abcd = abc + d;
    assert(rows == abcd + e);
    assert forall|k: int| 0 <= k < rows.len() implies {
        let r = #[trigger] rows[k];
        r.1 == bytes_in_category(v, r.0) && r.1 > 0
    } by {
        if k < abcd.len() {
            assert(rows[k] == abcd[k]);
            if k < abc.len() {
                assert(abcd[k] == abc[k]);
                if k < ab.len() {
                    assert(abc[k] == ab[k]);
                }
            }
        }
    }
    assert forall|x: Category| #[trigger] bytes_in_category(v, x) > 0 implies rows.contains(
        (x, bytes_in_category(v, x)),
    ) by {
        let r = (x, bytes_in_category(v, x));
        let k = match x {
            Category::DevArtifact => 0int,
            Category::AppCache => a.len() as int,
            Category::DownloadEntropy => ab.len() as int,
            Category::VmDisk => abc.len() as int,
            Category::Unknown => abcd.len() as int,
        };
        assert(rows[k] == r);
    }
}

// ---------------------------------------------------------------------------
// Advice
// ---------------------------------------------------------------------------
/// A permanent deletion is advised exactly for a safe path of at least 0.85; a safe one of less is to be
/// moved aside, and an unsafe one is to be left.
pub proof fn advice_follows_safety_and_confidence(path: Seq<char>, confidence: u32)
    ensures
        confidence >= 850_000 ==> recommendation(path, Some(confidence), true)
            == "Reclaim: `diskspace airlock <id> --immediate --yes`  (confidence "@ + decimal(
            percent(confidence),
        ) + "%, safe to delete permanently)"@,
        confidence < 850_000 ==> recommendation(path, Some(confidence), true)
            == "Airlock (reversible): `diskspace airlock <id>`  (confidence "@ + decimal(
            percent(confidence),
        ) + "% — below 0.85 threshold for permanent delete)"@,
        recommendation(path, Some(confidence), false)
            == "Do not delete — pressure test failed. See `diskspace inspect "@ + path
            + "` for the failing check."@,
        recommendation(path, None, true) == "Reversible: `diskspace airlock "@ + path
            + "`  (no rule matched, but the pressure-test is clean — fully reversible)"@,
{
}

/// A confidence is told as the nearest whole percentage, and a cost of recovery in whole seconds,
/// minutes or hours.
pub proof fn advice_rounds_to_the_nearest(millionths: u32, recovery: Seq<char>, seconds: u32)
    ensures
        -5_000 <= percent(millionths) * 10_000 - millionths <= 5_000,
        recovery_label(recovery, None) == recovery,
        seconds < 60 ==> recovery_label(recovery, Some(seconds)) == recovery + " · ~"@ + decimal(
            seconds as nat,
        ) + "s"@,
        60 <= seconds < 3600 ==> recovery_label(recovery, Some(seconds)) == recovery + " · ~"@
            + decimal(seconds as nat / 60) + " min"@,
        seconds >= 3600 ==> recovery_label(recovery, Some(seconds)) == recovery + " · ~"@ + decimal(
            seconds as nat / 3600,
        ) + " hr"@,
{
}

// ---------------------------------------------------------------------------
// The disk over time
// ---------------------------------------------------------------------------
/// A window holds the readings from its start on, in their order, and no other.
pub proof fn windows_start_at_their_cutoff(v: Seq<DfSample>, s: DfSample, cutoff: i64)
    ensures
        since(Seq::empty(), cutoff).len() == 0,
        s.ts >= cutoff ==> since(v.push(s), cutoff) == since(v, cutoff).push(s),
        s.ts < cutoff ==> since(v.push(s), cutoff) == since(v, cutoff),
{
    assert(v.push(s).drop_last() =~= v);
}

/// The least and the greatest of a series are among it and bound it.
pub proof fn extremes_bound_the_series(v: Seq<u64>)
    requires
        v.len() > 0,
    ensures
        v.contains(least(v)),
        v.contains(greatest(v)),
        forall|i: int| 0 <= i < v.len() ==> least(v) <= #[trigger] v[i] <= greatest(v),
    decreases v.len(),
{
    let d = v.drop_last();
    if v.len() > 1 {
        extremes_bound_the_series(d);
        assert forall|i: int| 0 <= i < v.len() implies least(v) <= #[trigger] v[i] <= greatest(v) by {
            if i < d.len() {
                assert(d[i] == v[i]);
            }
        }
        let a = d.index_of(least(d));
        let b = d.index_of(greatest(d));
        assert(v[a] == least(d) && v[b] == greatest(d));
        assert(v[v.len() - 1] == v.last());
    } else {
        assert(greatest(d) == 0);
        assert(v[0] == v.last());
    }
}

/// The mean of a series, times its length, is its sum, up to less than its length; a short series is
/// shown as it is, and a long one in just the columns there are.
pub proof fn means_and_columns(v: Seq<u64>, width: nat)
    requires
        v.len() > 0,
    ensures
        sum_of(v) / v.len() <= u64::MAX ==> mean(v) == sum_of(v) / v.len(),
        sum_of(v.push(0)) == sum_of(v),
        v.len() <= width ==> thinned(v, width) == v,
        0 < width < v.len() ==> thinned(v, width).len() == width,
{
    assert(v.push(0).drop_last() =~= v);
}

/// A growth bar is filled in proportion to the largest growth, to the nearest cell, and never beyond
/// its end.
pub proof fn bars_are_in_proportion(delta: u64, largest: u64)
    requires
        delta <= largest,
        largest > 0,
    ensures
        ({
            let f = filled_of(delta, largest);
            &&& 0 <= f <= 14
            &&& 2 * f * largest <= 28 * delta + largest
            &&& f < 14 ==> 28 * delta + largest < 2 * (f + 1) * largest
        }),
{
    let (n, d) = (28 * delta + largest, 2 * largest as int);
    let q = n / d;
    assert(q * d <= n < (q + 1) * d) by (nonlinear_arith)
        requires
            d > 0,
            q == n / d,
    ;
    assert(0 <= q) by (nonlinear_arith)
        requires
            n >= 0,
            d > 0,
            q == n / d,
    ;
    let f = filled_of(delta, largest);
    assert(q * d == 2 * q * largest) by (nonlinear_arith)
        requires
            d == 2 * largest,
    ;
    assert((q + 1) * d == 2 * (q + 1) * largest) by (nonlinear_arith)
        requires
            d == 2 * largest,
    ;
    assert(f <= q);
    assert(2 * f * largest <= 2 * q * largest) by (nonlinear_arith)
        requires
            f <= q,
            largest >= 0,
    ;
}

/// A disk fills where it shrinks and the day it is full is known; what gains space is reclaiming, and
/// what does neither is flat.
pub proof fn outlook_follows_the_rate(rate: Option<BurnRate>, days: Option<i64>)
    ensures
        rate is None ==> outlook_of(rate, days) == Outlook::Unknown,
        rate matches Some(BurnRate::Shrinking(b)) ==> (days is Some ==> outlook_of(rate, days)
            == Outlook::Filling(b, days->0)) && (days is None ==> outlook_of(rate, days)
            == Outlook::Flat),
        rate matches Some(BurnRate::Growing(b)) ==> outlook_of(rate, days) == Outlook::Reclaiming(
            b,
        ),
        rate == Some(BurnRate::Still) ==> outlook_of(rate, days) == Outlook::Flat,
{
}

// ---------------------------------------------------------------------------
// The welcome and the first questions
// ---------------------------------------------------------------------------
/// A disk is marked full below a twentieth and low below a tenth, and the share that is free is told to
/// the nearest percentage.
pub proof fn markers_follow_the_disk(free: u64, total: u64)
    requires
        total > 0,
    ensures
        marker_of(free, total) == DiskMarker::Full <==> free * 20 < total,
        marker_of(free, total) == DiskMarker::Low <==> free * 20 >= total && free * 10 < total,
        marker_of(free, total) == DiskMarker::Fine <==> free * 10 >= total,
        -(total as int) <= 2 * (whole_percent(free, total) * total - free * 100) <= total,
        whole_percent(free, 0) == 0,
{
    let (n, d) = (free * 100, total as int);
    let (q, r) = (n / d, n % d);
    assert(n == q * d + r && 0 <= r < d) by (nonlinear_arith)
        requires
            d > 0,
            q == n / d,
            r == n % d,
    ;
    assert((q + 1) * d == q * d + d) by (nonlinear_arith);
}

/// An age is told in the largest unit of which a whole one has gone by.
pub proof fn ages_are_told_by_their_unit(secs: int)
    ensures
        secs < 60 ==> relative_age(secs) == "just now"@,
        60 <= secs < 3_600 ==> relative_age(secs) == decimal_int(secs / 60) + "m ago"@,
        3_600 <= secs < 86_400 ==> relative_age(secs) == decimal_int(secs / 3_600) + "h ago"@,
        secs >= 86_400 ==> relative_age(secs) == decimal_int(secs / 86_400) + "d ago"@,
{
}

/// A number names the choice that stands at it in the list, counted from one, and any other text names
/// none.
pub proof fn numbers_name_their_choice(piece: Seq<char>, selected: Seq<int>, i: int)
    ensures
        named_choice(piece) is Some ==> crate::numbers::whole_number(crate::text::trimmed(piece))
            == Some(named_choice(piece)->0 + 1) && 0 <= named_choice(piece)->0 < choices().len(),
        named_choice(piece) is None ==> {
            let n = crate::numbers::whole_number(crate::text::trimmed(piece));
            n is None || n->0 < 1 || n->0 > choices().len()
        },
        0 <= i < choices().len() ==> chosen_domains(selected)[i].0 == choices()[i].key && (
        chosen_domains(selected)[i].1 <==> selected.contains(i)),
        chosen_domains(selected).len() == 10,
{
}

/// A row that is handed out tells of its candidate: what is advised for it and what its loss would
/// cost.
pub proof fn rows_tell_of_their_candidate(row: DetectRow, c: CandidateView)
    requires
        row_of(row, c),
    ensures
        row.candidate@ == c,
        row.recommended_command@ == recommendation(c.path, Some(c.confidence), true),
        row.recovery_class@ == c.recovery_class(),
{
}

/// Every number that a line names is chosen, in its order, and nothing else is.
pub proof fn lines_choose_what_they_name(pieces: Seq<Seq<char>>, piece: Seq<char>)
    ensures
        named_choices(Seq::empty()).len() == 0,
        named_choice(piece) is Some ==> named_choices(pieces.push(piece)) == named_choices(
            pieces,
        ).push(named_choice(piece)->0),
        named_choice(piece) is None ==> named_choices(pieces.push(piece)) == named_choices(pieces),
{
    assert(pieces.push(piece).drop_last() =~= pieces);
}

/// A window holds the free bytes of its readings, each in its place.
pub proof fn windows_hold_the_free_bytes(v: Seq<DfSample>, i: int)
    ensures
        frees(v).len() == v.len(),
        0 <= i < v.len() ==> frees(v)[i] == v[i].free_bytes,
{
}

/// The numbers of a line stand between its commas; the labels that are shown are those of the numbers.
pub proof fn lines_are_cut_at_their_commas(line: Seq<char>, selected: Seq<int>, i: int)
    ensures
        selection(line) == named_choices(split_on(trimmed(line), ',')),
        labels_at(selected).len() == selected.len(),
        0 <= i < selected.len() ==> labels_at(selected)[i] == choices()[selected[i]].label,
{
}

/// The kinds of work that can be chosen have their names, in the order in which they are numbered.
pub proof fn kinds_of_work_by_number()
    ensures
        choices().len() == 10,
        choices()[0].key == "web_development"@,
        choices()[1].key == "ios_development"@,
        choices()[2].key == "android_development"@,
        choices()[3].key == "data_science"@,
        choices()[4].key == "rust_development"@,
        choices()[5].key == "go_development"@,
        choices()[6].key == "docker"@,
        choices()[7].key == "video_editing"@,
        choices()[8].key == "music_production"@,
        choices()[9].key == "game_development"@,
{
}

/// A sum grows by each value, from nothing.
pub proof fn sums_grow_by_each_value(v: Seq<u64>, x: u64)
    ensures
        sum_of(Seq::empty()) == 0,
        sum_of(v.push(x)) == sum_of(v) + x,
{
    assert(v.push(x).drop_last() =~= v);
}

} // verus!
