//! What holds of every look at the disk in the background.

use crate::model::CandidateView;
use crate::order::{lemma_marked, marked};
use crate::text::{decimal, occurs, occurs_at};
use crate::time_laws::whole_units_have_gone_by;
use crate::watch::{
    auto_next, auto_start, body_of, harmless, harmless_picks, percentage, plist_head, plist_of,
    script_of, share_of, tenths, tick_of, title_of, unquoted, AutoView, Level, ReclaimEvent,
    WatchState,
};
use vstd::prelude::*;

verus! {

/// The level of a look follows the share that is free: urgent below a twentieth, soft below a tenth,
/// and otherwise healthy. A volume of no size counts as free.
pub proof fn level_follows_the_disk(
    prior: WatchState,
    free: u64,
    total: u64,
    enabled: bool,
    now: i64,
)
    ensures
        ({
            let t = tick_of(prior, free, total, enabled, now);
            &&& total > 0 ==> (t.level == Level::Urgent <==> free * 20 < total)
            &&& total > 0 ==> (t.level == Level::Soft <==> free * 20 >= total && free * 10 < total)
            &&& total > 0 ==> (t.level == Level::Healthy <==> free * 10 >= total)
            &&& total == 0 ==> t.level == Level::Healthy
            &&& t.share == share_of(free, total)
        }),
{
    if total > 0 {
        crate::watch::levels_follow_the_free_share(free, total);
    }
}

/// An alarm is raised when the level changes to soft or urgent, and again after an hour at soft, after
/// a quarter of one at urgent, or when half a hundredth more of the disk is gone at urgent. A return to
/// health is told where something else was told of before.
pub proof fn alarms_are_raised_when_due(
    prior: WatchState,
    free: u64,
    total: u64,
    enabled: bool,
    now: i64,
)
    ensures
        ({
            let t = tick_of(prior, free, total, enabled, now);
            let entered = prior.last_level != Some(t.level);
            let told = prior.last_notified_ts;
            let share = prior.last_notified_share;
            &&& t.level == Level::Healthy ==> (t.notify <==> prior.last_level is Some && entered)
            &&& t.level == Level::Soft ==> (t.notify <==> entered || told is None || now - told->0
                >= 3_600_000_000_000)
            &&& t.level == Level::Urgent ==> (t.notify <==> entered || told is None || now - told->0
                >= 900_000_000_000 || share is None || share->0 - t.share >= 5_000_000)
        }),
{
    if let Some(told) = prior.last_notified_ts {
        whole_units_have_gone_by(now, told, 3600);
        whole_units_have_gone_by(now, told, 900);
    }
}

/// Space is reclaimed unasked exactly where that is allowed, the disk is urgent, and it was not done
/// within the last half hour.
pub proof fn unasked_reclaims_are_rare(
    prior: WatchState,
    free: u64,
    total: u64,
    enabled: bool,
    now: i64,
)
    ensures
        ({
            let t = tick_of(prior, free, total, enabled, now);
            t.autoreclaim <==> enabled && t.level == Level::Urgent && (prior.last_autoreclaim_ts
                is None || now - prior.last_autoreclaim_ts->0 >= 1_800_000_000_000)
        }),
{
    if let Some(last) = prior.last_autoreclaim_ts {
        whole_units_have_gone_by(now, last, 1800);
    }
}

/// A look remembers what it saw and when; it remembers when it last spoke or acted, with the share of
/// that moment.
pub proof fn looks_are_remembered(
    prior: WatchState,
    free: u64,
    total: u64,
    enabled: bool,
    now: i64,
)
    ensures
        ({
            let t = tick_of(prior, free, total, enabled, now);
            &&& t.state.last_level == Some(t.level)
            &&& t.state.last_ts == Some(now)
            &&& t.state.last_free_share == Some(t.share)
            &&& t.state.last_free_bytes == Some(free)
            &&& t.state.last_total_bytes == Some(total)
            &&& t.notify ==> t.state.last_notified_ts == Some(now) && t.state.last_notified_share
                == Some(t.share)
            &&& !t.notify ==> t.state.last_notified_ts == prior.last_notified_ts
                && t.state.last_notified_share == prior.last_notified_share
            &&& t.autoreclaim ==> t.state.last_autoreclaim_ts == Some(now)
            &&& !t.autoreclaim ==> t.state.last_autoreclaim_ts == prior.last_autoreclaim_ts
        }),
{
}

/// What is deleted unasked has at least 0.85 and comes back by itself, is fetched or is built again; all
/// of that is picked, in its order, and nothing else.
pub proof fn unasked_picks_are_sure_and_come_back(v: Seq<CandidateView>, i: int)
    ensures
        harmless_picks(v).contains(i) <==> 0 <= i < v.len() && v[i].confidence >= 850_000
            && v[i].consequences is Some && {
            let class = v[i].consequences->0.recovery;
            class == "auto"@ || class == "redownload"@ || class == "rebuild"@
        },
        forall|a: int, b: int|
            0 <= a < b < harmless_picks(v).len() ==> #[trigger] harmless_picks(v)[a]
                < #[trigger] harmless_picks(v)[b],
{
    let flags = crate::watch::harmless_flags(v);
    lemma_marked(flags);
    if marked(flags).contains(i) {
        let k = marked(flags).index_of(i);
        assert(flags[marked(flags)[k]]);
    }
    if 0 <= i < v.len() && harmless(v[i].confidence, crate::watch::declared_recovery(v[i])) {
        assert(flags[i]);
    }
}

/// An unasked deletion follows its check: a pick that failed is passed over, one that passed is deleted
/// next, and only a deletion that was done counts, with its bytes.
pub proof fn unasked_deletions_follow_their_check(
    v: Seq<CandidateView>,
    s: AutoView,
    yes: bool,
)
    requires
        0 <= s.at < s.picks.len(),
    ensures
        !s.cleared ==> {
            let t = auto_next(v, s, ReclaimEvent::Checked(yes));
            &&& t.cleared == yes
            &&& t.at == if yes {
                s.at
            } else {
                s.at + 1
            }
            &&& t.deleted == s.deleted && t.bytes_freed == s.bytes_freed
            &&& auto_next(v, s, ReclaimEvent::Deleted(yes)) == s
        },
        s.cleared ==> {
            let t = auto_next(v, s, ReclaimEvent::Deleted(yes));
            &&& !t.cleared
            &&& t.at == s.at + 1
            &&& yes ==> t.deleted == s.deleted.push(s.picks[s.at]) && t.bytes_freed
                == s.bytes_freed + v[s.picks[s.at]].size_bytes
            &&& !yes ==> t.deleted == s.deleted && t.bytes_freed == s.bytes_freed
        },
{
}

/// A share is told as a percentage to the nearest tenth.
pub proof fn shares_are_told_to_the_nearest_tenth(share: u64)
    ensures
        -500_000 <= tenths(share) * 1_000_000 - share <= 500_000,
        percentage(share) == decimal((tenths(share) / 10) as nat) + "."@ + decimal(
            (tenths(share) % 10) as nat,
        ),
{
}

/// Below a fiftieth an urgent disk is called critical; every message tells the share and the size.
pub proof fn messages_tell_the_level(level: Level, share: u64, size: Seq<char>)
    ensures
        level == Level::Urgent && share < 20_000_000 ==> title_of(level, share)
            == "diskspace — disk CRITICALLY full"@,
        level == Level::Urgent && share >= 20_000_000 ==> title_of(level, share)
            == "diskspace — disk is full"@,
        level == Level::Soft ==> title_of(level, share) == "diskspace — disk getting low"@,
        level == Level::Healthy ==> title_of(level, share) == "diskspace — disk recovered"@,
        level == Level::Urgent ==> body_of(level, share, size) == "Only "@ + percentage(share)
            + "% free ("@ + size + "). Run `diskspace doctor` to free space safely."@,
        level == Level::Soft ==> body_of(level, share, size) == percentage(share) + "% free ("@
            + size + "). Run `diskspace detect` to see what's cleanable."@,
{
}

/// A disk that is well again is told so, with its share and size.
pub proof fn recovery_is_told(share: u64, size: Seq<char>)
    ensures
        body_of(Level::Healthy, share, size) == "Back above the 10% target ("@ + percentage(share)
            + "% free, "@ + size + "). Nothing to do."@,
        Level::Healthy.text() == "ok"@,
        Level::Soft.text() == "soft"@,
        Level::Urgent.text() == "urgent"@,
{
}

/// A share that lies in the middle between two tenths is told as the even one.
pub proof fn middles_are_told_as_even(share: u64)
    ensures
        share % 1_000_000 == 500_000 ==> tenths(share) % 2 == 0,
{
}

/// A share is the part that is free, in billionths and rounded down.
pub proof fn shares_are_billionths(free: u64, total: u64)
    requires
        0 < total,
        free <= total,
    ensures
        share_of(free, total) * total <= free * 1_000_000_000 < (share_of(free, total) + 1) * total,
        share_of(total, total) == 1_000_000_000,
        share_of(0, total) == 0,
        share_of(free, 0) == 1_000_000_000,
{
    let n = free * 1_000_000_000;
    let q = n / total as int;
    vstd::arithmetic::div_mod::lemma_fundamental_div_mod(n, total as int);
    assert(q <= 1_000_000_000) by (nonlinear_arith)
        requires
            q * total <= n,
            n <= total * 1_000_000_000,
            total > 0,
    ;
    assert(q * total <= n < (q + 1) * total) by (nonlinear_arith)
        requires
            n == total * q + n % (total as int),
            0 <= n % (total as int) < total,
    ;
    let m = total * 1_000_000_000;
    assert(m / total as int == 1_000_000_000) by (nonlinear_arith)
        requires
            m == total * 1_000_000_000,
            total > 0,
    ;
    assert(0int / total as int == 0) by (nonlinear_arith)
        requires
            total > 0,
    ;
}

/// An unasked run starts before its first pick with nothing deleted, and once it is through its picks
/// nothing changes it. A second check of a cleared pick changes nothing either.
pub proof fn unasked_runs_start_and_end(v: Seq<CandidateView>, s: AutoView, e: ReclaimEvent, yes: bool)
    ensures
        auto_start(v).picks == harmless_picks(v),
        auto_start(v).at == 0 && !auto_start(v).cleared,
        auto_start(v).deleted.len() == 0 && auto_start(v).bytes_freed == 0,
        s.at >= s.picks.len() ==> auto_next(v, s, e) == s,
        s.cleared ==> auto_next(v, s, ReclaimEvent::Checked(yes)) == s,
        auto_next(v, s, e).picks == s.picks,
{
}

/// The script shows the body under the title; a double quote in either becomes a single one, and
/// nothing else changes.
pub proof fn scripts_show_both_texts(title: Seq<char>, body: Seq<char>, i: int)
    ensures
        script_of(title, body) == "display notification \""@ + unquoted(body)
            + "\" with title \""@ + unquoted(title) + "\""@,
        unquoted(body).len() == body.len(),
        0 <= i < body.len() ==> unquoted(body)[i] == if body[i] == '"' {
            '\''
        } else {
            body[i]
        },
{
}

/// The background agent runs the watch of the program that it was made for every five minutes, under
/// its label, and writes where it was told to.
pub proof fn agent_runs_the_watch(bin: Seq<char>, stdout: Seq<char>, stderr: Seq<char>)
    ensures
        occurs(plist_of(bin, stdout, stderr), "com.tymrtn.diskspace.watch"@),
        occurs(
            plist_of(bin, stdout, stderr),
            bin + "</string>\n        <string>watch</string>\n        <string>run</string>\n    </array>\n    <key>StartInterval</key>\n    <integer>"@
                + decimal(300)
                + "</integer>\n    <key>RunAtLoad</key>\n    <true/>\n    <key>StandardOutPath</key>\n    <string>"@
                + stdout + "</string>\n    <key>StandardErrorPath</key>\n    <string>"@ + stderr,
        ),
{
    let head = plist_head();
    let args = "</string>\n    <key>ProgramArguments</key>\n    <array>\n        <string>"@;
    let run = "</string>\n        <string>watch</string>\n        <string>run</string>\n    </array>\n    <key>StartInterval</key>\n    <integer>"@;
    let every = "</integer>\n    <key>RunAtLoad</key>\n    <true/>\n    <key>StandardOutPath</key>\n    <string>"@;
    let err = "</string>\n    <key>StandardErrorPath</key>\n    <string>"@;
    let end = "</string>\n    <key>ProcessType</key>\n    <string>Background</string>\n</dict>\n</plist>\n"@;
    let label = "com.tymrtn.diskspace.watch"@;
    let p = plist_of(bin, stdout, stderr);
    let mid = bin + run + decimal(300) + every + stdout + err + stderr;
    assert(p =~= head + label + (args + mid + end));
    assert(p =~= (head + label + args) + mid + end);
    lemma_middle(head, label, args + mid + end);
    lemma_middle(head + label + args, mid, end);
}

proof fn lemma_middle(a: Seq<char>, b: Seq<char>, c: Seq<char>)
    ensures
        occurs(a + b + c, b),
{
    let s = a + b + c;
    assert(s.subrange(a.len() as int, a.len() as int + b.len() as int) =~= b);
    assert(occurs_at(s, b, a.len() as int));
}

} // verus!
