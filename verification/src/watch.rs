//! The disk monitor: how full the disk is, when to say so, and when to reclaim unasked.
//!
//! A share of the volume is counted in billionths, so that 5 % is `50_000_000`.

use crate::history::{ActionKind, Entry};
#[allow(unused_imports)]
use crate::history::{context_view, ReceiptView};
use crate::model::{elapsed_seconds, Candidate};
#[allow(unused_imports)]
use crate::model::{candidate_views, seconds_between, CandidateView};
use crate::order::marked_positions;
#[allow(unused_imports)]
use crate::order::{indices, lemma_marked, marked};
use crate::paths::join_path;
#[allow(unused_imports)]
use crate::paths::joined_path;
use crate::text::{chars_of, contains, same, to_decimal};
#[allow(unused_imports)]
use crate::text::{decimal, occurs, opt_str_view};
use vstd::prelude::*;

verus! {

pub const PLIST_LABEL: &'static str = "com.tymrtn.diskspace.watch";

pub const CHECK_INTERVAL_SECONDS: u32 = 300;

/// Below this share of free space a nudge is due.
pub const SOFT_FREE: u64 = 100_000_000;

/// Below this share the disk counts as full.
pub const URGENT_FREE: u64 = 50_000_000;

/// Below this share the wording gets sharper.
pub const CRITICAL_FREE: u64 = 20_000_000;

/// While the level stays urgent, a reminder is due after this time.
pub const URGENT_RENOTIFY_SECS: i64 = 900;

/// While the level stays soft, a reminder is due after this time.
pub const SOFT_RENOTIFY_SECS: i64 = 3600;

/// While the level stays urgent, a further drop by this share is told at once.
pub const RENOTIFY_DROP: u64 = 5_000_000;

/// Between two reclaims that nobody asked for, at least this time passes.
pub const AUTORECLAIM_MIN_INTERVAL_SECS: i64 = 1800;

/// The confidence from which a candidate may be reclaimed unasked.
pub const AUTORECLAIM_MIN_CONFIDENCE: u32 = 850_000;

// ---------------------------------------------------------------------------
// Levels
// ---------------------------------------------------------------------------
#[derive(Debug, Clone, Copy, PartialEq, Eq, Structural)]
pub enum Level {
    Healthy,
    Soft,
    Urgent,
}

impl Level {
    pub open spec fn text(self) -> Seq<char> {
        match self {
            Level::Healthy => "ok"@,
            Level::Soft => "soft"@,
            Level::Urgent => "urgent"@,
        }
    }

    pub fn as_str(&self) -> (r: &'static str)
        ensures
            r@ == self.text(),
    {
        match self {
            Level::Healthy => "ok",
            Level::Soft => "soft",
            Level::Urgent => "urgent",
        }
    }
}

/// The free share of a volume, cut to whole billionths; a volume without a size is all free.
pub open spec fn share_of(free: u64, total: u64) -> u64 {
    if total > 0 {
        let s = free * 1_000_000_000 / total as int;
        if s > u64::MAX {
            u64::MAX
        } else {
            s as u64
        }
    } else {
        1_000_000_000
    }
}

pub fn free_share(free: u64, total: u64) -> (r: u64)
    ensures
        r == share_of(free, total),
{
    if total == 0 {
        return 1_000_000_000;
    }
    let product: u128 = free as u128 * 1_000_000_000;
    let s: u128 = product / total as u128;
    if s > 0xffff_ffff_ffff_ffff {
        u64::MAX
    } else {
        s as u64
    }
}

pub open spec fn level_for(share: u64) -> Level {
    if share < URGENT_FREE {
        Level::Urgent
    } else if share < SOFT_FREE {
        Level::Soft
    } else {
        Level::Healthy
    }
}

pub fn level_of(share: u64) -> (r: Level)
    ensures
        r == level_for(share),
{
    if share < URGENT_FREE {
        Level::Urgent
    } else if share < SOFT_FREE {
        Level::Soft
    } else {
        Level::Healthy
    }
}

/// A volume is urgent just below 5 % of free space, and at least soft just below 10 %.
pub proof fn levels_follow_the_free_share(free: u64, total: u64)
    requires
        total > 0,
    ensures
        level_for(share_of(free, total)) == Level::Urgent <==> free * 20 < total,
        level_for(share_of(free, total)) != Level::Healthy <==> free * 10 < total,
{
    let s = free * 1_000_000_000 / total as int;
    assert(s >= 0 && s * total <= free * 1_000_000_000 < (s + 1) * total) by (nonlinear_arith)
        requires
            s == free * 1_000_000_000 / total as int,
            total > 0,
            free >= 0,
    ;
    assert(s < 50_000_000 <==> free * 20 < total) by (nonlinear_arith)
        requires
            s * total <= free * 1_000_000_000 < (s + 1) * total,
            total > 0,
    ;
    assert(s < 100_000_000 <==> free * 10 < total) by (nonlinear_arith)
        requires
            s * total <= free * 1_000_000_000 < (s + 1) * total,
            total > 0,
    ;
}

// ---------------------------------------------------------------------------
// Notifications
// ---------------------------------------------------------------------------
/// What one tick leaves for the next.
#[derive(Debug, Clone, Copy, PartialEq, Eq, Structural)]
pub struct WatchState {
    pub last_level: Option<Level>,
    pub last_ts: Option<i64>,
    pub last_free_share: Option<u64>,
    pub last_free_bytes: Option<u64>,
    pub last_total_bytes: Option<u64>,
    pub last_notified_ts: Option<i64>,
    pub last_notified_share: Option<u64>,
    pub last_autoreclaim_ts: Option<i64>,
}

pub open spec fn fresh_state() -> WatchState {
    WatchState {
        last_level: None,
        last_ts: None,
        last_free_share: None,
        last_free_bytes: None,
        last_total_bytes: None,
        last_notified_ts: None,
        last_notified_share: None,
        last_autoreclaim_ts: None,
    }
}

impl Default for WatchState {
    fn default() -> (r: WatchState)
        ensures
            r == fresh_state(),
    {
        WatchState {
            last_level: None,
            last_ts: None,
            last_free_share: None,
            last_free_bytes: None,
            last_total_bytes: None,
            last_notified_ts: None,
            last_notified_share: None,
            last_autoreclaim_ts: None,
        }
    }
}

/// At least `secs` whole seconds have passed since a point in time, or there is none.
pub open spec fn waited(since: Option<i64>, now: i64, secs: int) -> bool {
    match since {
        Some(t) => seconds_between(now, t) >= secs,
        None => true,
    }
}

fn has_waited(since: Option<i64>, now: i64, secs: i64) -> (r: bool)
    ensures
        r == waited(since, now, secs as int),
{
    match since {
        Some(t) => elapsed_seconds(now, t) >= secs,
        None => true,
    }
}

/// The free share fell by the given amount since a notification, or there was none.
pub open spec fn fell(since: Option<u64>, share: u64, by: int) -> bool {
    match since {
        Some(prev) => prev - share >= by,
        None => true,
    }
}

/// A notification is due: on the way back to health once; on entering another level; and while a
/// low level lasts, after its time, or on a further drop where it is urgent.
pub open spec fn due(prior: WatchState, level: Level, share: u64, now: i64) -> bool {
    let entered = prior.last_level != Some(level);
    match level {
        Level::Healthy => prior.last_level is Some && entered,
        Level::Soft => entered || waited(prior.last_notified_ts, now, SOFT_RENOTIFY_SECS as int),
        Level::Urgent => entered || waited(
            prior.last_notified_ts,
            now,
            URGENT_RENOTIFY_SECS as int,
        ) || fell(prior.last_notified_share, share, RENOTIFY_DROP as int),
    }
}

pub fn decide_notify(prior: &WatchState, level: Level, share: u64, now: i64) -> (r: bool)
    ensures
        r == due(*prior, level, share, now),
{
    let entered: bool = match prior.last_level {
        Some(l) => l != level,
        None => true,
    };
    match level {
        Level::Healthy => prior.last_level.is_some() && entered,
        Level::Soft => entered || has_waited(prior.last_notified_ts, now, SOFT_RENOTIFY_SECS),
        Level::Urgent => {
            if entered || has_waited(prior.last_notified_ts, now, URGENT_RENOTIFY_SECS) {
                return true;
            }
            match prior.last_notified_share {
                Some(prev) => prev >= share && prev - share >= RENOTIFY_DROP,
                None => true,
            }
        },
    }
}

/// Reclaiming unasked takes the standing consent, an urgent level and enough time since the last.
pub open spec fn may_autoreclaim(enabled: bool, level: Level, last: Option<i64>, now: i64) -> bool {
    enabled && level == Level::Urgent && waited(last, now, AUTORECLAIM_MIN_INTERVAL_SECS as int)
}

pub fn should_autoreclaim(enabled: bool, level: Level, last: Option<i64>, now: i64) -> (r: bool)
    ensures
        r == may_autoreclaim(enabled, level, last, now),
{
    enabled && level == Level::Urgent && has_waited(last, now, AUTORECLAIM_MIN_INTERVAL_SECS)
}

// ---------------------------------------------------------------------------
// One tick
// ---------------------------------------------------------------------------
/// What a tick found and decided.
#[derive(Debug, Clone, Copy, PartialEq, Eq, Structural)]
pub struct Tick {
    pub level: Level,
    pub share: u64,
    pub notify: bool,
    pub autoreclaim: bool,
    /// What the next tick starts from.
    pub state: WatchState,
}

pub open spec fn tick_of(
    prior: WatchState,
    free: u64,
    total: u64,
    enabled: bool,
    now: i64,
) -> Tick {
    let share = share_of(free, total);
    let level = level_for(share);
    let notify = due(prior, level, share, now);
    let autoreclaim = may_autoreclaim(enabled, level, prior.last_autoreclaim_ts, now);
    Tick {
        level,
        share,
        notify,
        autoreclaim,
        state: WatchState {
            last_level: Some(level),
            last_ts: Some(now),
            last_free_share: Some(share),
            last_free_bytes: Some(free),
            last_total_bytes: Some(total),
            last_notified_ts: if notify {
                Some(now)
            } else {
                prior.last_notified_ts
            },
            last_notified_share: if notify {
                Some(share)
            } else {
                prior.last_notified_share
            },
            last_autoreclaim_ts: if autoreclaim {
                Some(now)
            } else {
                prior.last_autoreclaim_ts
            },
        },
    }
}

/// Reads the disk once and decides. What was last told, and when, moves on only with a
/// notification; the time of the last reclaim only with an attempt.
pub fn watch_tick(prior: &WatchState, free: u64, total: u64, enabled: bool, now: i64) -> (r: Tick)
    ensures
        r == tick_of(*prior, free, total, enabled, now),
{
    let share: u64 = free_share(free, total);
    let level: Level = level_of(share);
    let notify: bool = decide_notify(prior, level, share, now);
    let autoreclaim: bool = should_autoreclaim(enabled, level, prior.last_autoreclaim_ts, now);
    Tick {
        level,
        share,
        notify,
        autoreclaim,
        state: WatchState {
            last_level: Some(level),
            last_ts: Some(now),
            last_free_share: Some(share),
            last_free_bytes: Some(free),
            last_total_bytes: Some(total),
            last_notified_ts: if notify {
                Some(now)
            } else {
                prior.last_notified_ts
            },
            last_notified_share: if notify {
                Some(share)
            } else {
                prior.last_notified_share
            },
            last_autoreclaim_ts: if autoreclaim {
                Some(now)
            } else {
                prior.last_autoreclaim_ts
            },
        },
    }
}

/// A disk that stays full is never passed over in silence for long: a silent urgent tick follows
/// a notification that is less than a quarter of an hour old, and the disk has hardly got fuller
/// since.
pub proof fn urgent_silence_is_short(
    prior: WatchState,
    free: u64,
    total: u64,
    enabled: bool,
    now: i64,
)
    requires
        tick_of(prior, free, total, enabled, now).level == Level::Urgent,
        !tick_of(prior, free, total, enabled, now).notify,
    ensures
        prior.last_notified_ts is Some,
        seconds_between(now, prior.last_notified_ts->0) < URGENT_RENOTIFY_SECS,
        prior.last_notified_share is Some,
        prior.last_notified_share->0 - share_of(free, total) < RENOTIFY_DROP,
{
}

/// After a tick the next one on the same level stays silent until its time has come, or until an
/// urgent disk has got fuller by the telling share.
pub proof fn same_level_is_not_told_twice(
    prior: WatchState,
    free: u64,
    total: u64,
    enabled: bool,
    then: i64,
    next_free: u64,
    now: i64,
)
    requires
        tick_of(prior, free, total, enabled, then).notify,
        level_for(share_of(next_free, total)) == level_for(share_of(free, total)),
        seconds_between(now, then) < URGENT_RENOTIFY_SECS,
        share_of(free, total) - share_of(next_free, total) < RENOTIFY_DROP,
    ensures
        !tick_of(
            tick_of(prior, free, total, enabled, then).state,
            next_free,
            total,
            enabled,
            now,
        ).notify,
{
}

/// A healthy disk is told of once, after a worse reading, and never at first sight.
pub proof fn health_is_told_once(
    prior: WatchState,
    free: u64,
    total: u64,
    enabled: bool,
    now: i64,
)
    requires
        tick_of(prior, free, total, enabled, now).level == Level::Healthy,
    ensures
        tick_of(prior, free, total, enabled, now).notify <==> (prior.last_level == Some(Level::Soft)
            || prior.last_level == Some(Level::Urgent)),
{
    if let Some(l) = prior.last_level {
        assert(l == Level::Healthy || l == Level::Soft || l == Level::Urgent);
    }
}

/// Nothing is reclaimed unasked without the standing consent, on a disk that is not urgent, or
/// sooner than half an hour after the last attempt.
pub proof fn autoreclaim_is_rare(
    prior: WatchState,
    free: u64,
    total: u64,
    enabled: bool,
    now: i64,
)
    requires
        tick_of(prior, free, total, enabled, now).autoreclaim,
    ensures
        enabled,
        tick_of(prior, free, total, enabled, now).level == Level::Urgent,
        prior.last_autoreclaim_ts matches Some(t) ==> seconds_between(now, t)
            >= AUTORECLAIM_MIN_INTERVAL_SECS,
        tick_of(prior, free, total, enabled, now).state.last_autoreclaim_ts == Some(now),
{
}

// ---------------------------------------------------------------------------
// What may be reclaimed unasked
// ---------------------------------------------------------------------------
/// What comes back by itself or on next use.
pub open spec fn comes_back(recovery: Option<Seq<char>>) -> bool {
    recovery == Some("auto"@) || recovery == Some("redownload"@) || recovery == Some("rebuild"@)
}

/// Sure enough, and known to come back.
pub open spec fn harmless(confidence: u32, recovery: Option<Seq<char>>) -> bool {
    confidence >= AUTORECLAIM_MIN_CONFIDENCE && comes_back(recovery)
}

pub fn is_autoreclaim_safe(confidence: u32, recovery: Option<&str>) -> (r: bool)
    ensures
        r == harmless(confidence, opt_str_view(recovery)),
{
    let back: bool = match recovery {
        Some(c) => same(c, "auto") || same(c, "redownload") || same(c, "rebuild"),
        None => false,
    };
    confidence >= AUTORECLAIM_MIN_CONFIDENCE && back
}

pub open spec fn declared_recovery(c: CandidateView) -> Option<Seq<char>> {
    match c.consequences {
        Some(q) => Some(q.recovery),
        None => None,
    }
}

pub open spec fn harmless_flags(v: Seq<CandidateView>) -> Seq<bool> {
    v.map_values(|c: CandidateView| harmless(c.confidence, declared_recovery(c)))
}

/// The positions of the candidates that may be reclaimed unasked.
pub open spec fn harmless_picks(v: Seq<CandidateView>) -> Seq<int> {
    marked(harmless_flags(v))
}

pub fn autoreclaim_picks(v: &Vec<Candidate>) -> (r: Vec<usize>)
    ensures
        indices(r@) == harmless_picks(candidate_views(v@)),
        forall|k: int| 0 <= k < r@.len() ==> #[trigger] r@[k] < v@.len(),
{
    let mut flags: Vec<bool> = Vec::new();
    let mut i: usize = 0;
    while i < v.len()
        invariant
            i <= v@.len(),
            flags@.len() == i,
            forall|j: int|
                0 <= j < i ==> #[trigger] flags@[j] == harmless(
                    v@[j]@.confidence,
                    declared_recovery(v@[j]@),
                ),
        decreases v.len() - i,
    {
        let recovery: Option<&str> = match &v[i].consequences {
            Some(q) => Some(q.recovery.as_str()),
            None => None,
        };
        flags.push(is_autoreclaim_safe(v[i].confidence, recovery));
        i += 1;
    }
    assert(flags@ =~= harmless_flags(candidate_views(v@)));
    marked_positions(&flags)
}

#[derive(Debug, Clone, Copy, PartialEq, Eq, Structural)]
pub enum ReclaimEvent {
    /// The check of the current candidate found it safe, or not.
    Checked(bool),
    /// The current candidate was deleted, or not.
    Deleted(bool),
}

#[derive(Debug, Clone, Copy, PartialEq, Eq, Structural)]
pub enum ReclaimAction {
    /// Check the candidate at this position.
    Check(usize),
    /// Delete the candidate at this position.
    Delete(usize),
    Done,
}

/// A reclaim that nobody asked for, on its way through the picks.
#[derive(Debug)]
pub struct AutoReclaim {
    pub picks: Vec<usize>,
    pub at: usize,
    pub cleared: bool,
    pub deleted: Vec<usize>,
    pub bytes_freed: u128,
}

#[verifier::ext_equal]
pub ghost struct AutoView {
    pub picks: Seq<int>,
    /// How many picks are behind.
    pub at: int,
    /// The current pick passed its check.
    pub cleared: bool,
    /// The positions that were deleted.
    pub deleted: Seq<int>,
    pub bytes_freed: nat,
}

impl View for AutoReclaim {
    type V = AutoView;

    open spec fn view(&self) -> AutoView {
        AutoView {
            picks: indices(self.picks@),
            at: self.at as int,
            cleared: self.cleared,
            deleted: indices(self.deleted@),
            bytes_freed: self.bytes_freed as nat,
        }
    }
}

pub open spec fn auto_start(v: Seq<CandidateView>) -> AutoView {
    AutoView {
        picks: harmless_picks(v),
        at: 0,
        cleared: false,
        deleted: Seq::empty(),
        bytes_freed: 0,
    }
}

/// A passed check clears the current pick; a deletion of a cleared pick counts; else it is
/// passed over.
pub open spec fn auto_next(v: Seq<CandidateView>, s: AutoView, e: ReclaimEvent) -> AutoView {
    if s.at >= s.picks.len() {
        s
    } else {
        let pick = s.picks[s.at];
        match e {
            ReclaimEvent::Checked(safe) => if s.cleared {
                s
            } else if safe {
                AutoView { cleared: true, ..s }
            } else {
                AutoView { at: s.at + 1, ..s }
            },
            ReclaimEvent::Deleted(done) => if !s.cleared {
                s
            } else if done {
                AutoView {
                    at: s.at + 1,
                    cleared: false,
                    deleted: s.deleted.push(pick),
                    bytes_freed: s.bytes_freed + v[pick].size_bytes as nat,
                    ..s
                }
            } else {
                AutoView { at: s.at + 1, cleared: false, ..s }
            },
        }
    }
}


impl AutoReclaim {
    /// The picks are positions of the candidates, and what was freed is within bounds.
    pub open spec fn sound(&self, v: Seq<CandidateView>) -> bool {
        &&& self.at <= self.picks@.len()
        &&& forall|k: int| 0 <= k < self.picks@.len() ==> #[trigger] self.picks@[k] < v.len()
        &&& self.bytes_freed <= self.at * 0xffff_ffff_ffff_ffff
    }

    pub fn begin(v: &Vec<Candidate>) -> (r: AutoReclaim)
        ensures
            r@ == auto_start(candidate_views(v@)),
            r.sound(candidate_views(v@)),
    {
        let picks: Vec<usize> = autoreclaim_picks(v);
        let deleted: Vec<usize> = Vec::new();
        assert(indices(deleted@) =~= Seq::empty());
        AutoReclaim { picks, at: 0, cleared: false, deleted, bytes_freed: 0 }
    }

    /// What is to be done next.
    pub fn next_action(&self) -> (r: ReclaimAction)
        ensures
            match r {
                ReclaimAction::Check(i) => self@.at < self@.picks.len() && !self@.cleared && i
                    == self@.picks[self@.at],
                ReclaimAction::Delete(i) => self@.at < self@.picks.len() && self@.cleared && i
                    == self@.picks[self@.at],
                ReclaimAction::Done => self@.at >= self@.picks.len(),
            },
    {
        assert(indices(self.picks@).len() == self.picks@.len());
        if self.at >= self.picks.len() {
            ReclaimAction::Done
        } else if self.cleared {
            ReclaimAction::Delete(self.picks[self.at])
        } else {
            ReclaimAction::Check(self.picks[self.at])
        }
    }

    /// Takes in what happened.
    pub fn step(&mut self, event: ReclaimEvent, v: &Vec<Candidate>)
        requires
            old(self).sound(candidate_views(v@)),
        ensures
            final(self)@ == auto_next(candidate_views(v@), old(self)@, event),
            final(self).sound(candidate_views(v@)),
    {
        let ghost w = candidate_views(v@);
        assert(w.len() == v@.len());
        assert(indices(self.picks@).len() == self.picks@.len());
        if self.at >= self.picks.len() {
            return;
        }
        let n: usize = self.picks.len();
        assert(self.at < n);
        let pick: usize = self.picks[self.at];
        match event {
            ReclaimEvent::Checked(safe) => {
                if !self.cleared {
                    if safe {
                        self.cleared = true;
                    } else {
                        self.at = self.at + 1;
                    }
                }
            },
            ReclaimEvent::Deleted(done) => {
                if self.cleared {
                    if done {
                        let size: u64 = v[pick].size_bytes;
                        assert(self.at * 0xffff_ffff_ffff_ffff <= 0xffff_ffff_ffff_ffff
                            * 0xffff_ffff_ffff_ffff) by (nonlinear_arith)
                            requires
                                self.at <= 0xffff_ffff_ffff_ffff,
                        ;
                        let ghost before = indices(self.deleted@);
                        self.bytes_freed = self.bytes_freed + size as u128;
                        self.deleted.push(pick);
                        assert(indices(self.deleted@) =~= before.push(pick as int));
                        assert(w[pick as int].size_bytes == size);
                    }
                    self.cleared = false;
                    self.at = self.at + 1;
                }
            },
        }
    }
}

/// The state after a course of events.
pub open spec fn auto_after(v: Seq<CandidateView>, events: Seq<ReclaimEvent>) -> AutoView
    decreases events.len(),
{
    if events.len() == 0 {
        auto_start(v)
    } else {
        auto_next(v, auto_after(v, events.drop_last()), events.last())
    }
}

/// The bytes of the candidates at some positions.
pub open spec fn bytes_deleted(v: Seq<CandidateView>, positions: Seq<int>) -> nat
    decreases positions.len(),
{
    if positions.len() == 0 {
        0
    } else {
        bytes_deleted(v, positions.drop_last()) + v[positions.last()].size_bytes as nat
    }
}

/// Whatever happens, what is deleted unasked is sure enough and known to come back, each
/// candidate goes once, and the bytes reported are those of what was deleted.
pub proof fn only_harmless_candidates_are_deleted(
    v: Seq<CandidateView>,
    events: Seq<ReclaimEvent>,
)
    ensures
        ({
            let s = auto_after(v, events);
            &&& s.picks == harmless_picks(v)
            &&& 0 <= s.at
            &&& s.bytes_freed == bytes_deleted(v, s.deleted)
            &&& forall|k: int|
                0 <= k < s.deleted.len() ==> 0 <= #[trigger] s.deleted[k] < v.len() && harmless(
                    v[s.deleted[k]].confidence,
                    declared_recovery(v[s.deleted[k]]),
                )
            &&& forall|j: int, k: int|
                0 <= j < k < s.deleted.len() ==> #[trigger] s.deleted[j] < #[trigger] s.deleted[k]
            &&& forall|k: int|
                0 <= k < s.deleted.len() && s.at < s.picks.len() ==> #[trigger] s.deleted[k]
                    < s.picks[s.at]
        }),
    decreases events.len(),
{
    let flags = harmless_flags(v);
    lemma_marked(flags);
    if events.len() > 0 {
        only_harmless_candidates_are_deleted(v, events.drop_last());
        let b = auto_after(v, events.drop_last());
        let s = auto_after(v, events);
        assert(s == auto_next(v, b, events.last()));
        if b.at < b.picks.len() {
            let pick = b.picks[b.at];
            assert(flags[pick]);
            assert(0 <= pick < v.len());
            if s.deleted != b.deleted {
                assert(s.deleted == b.deleted.push(pick));
                assert(s.deleted.drop_last() =~= b.deleted);
            }
        }
    }
}

/// No candidate is deleted that did not pass its check just before.
pub proof fn deletion_follows_a_passed_check(v: Seq<CandidateView>, s: AutoView, e: ReclaimEvent)
    requires
        auto_next(v, s, e).deleted != s.deleted,
    ensures
        s.cleared,
        e == ReclaimEvent::Deleted(true),
{
}

/// A pick is cleared by a passed check alone.
pub proof fn only_a_check_clears(v: Seq<CandidateView>, s: AutoView, e: ReclaimEvent)
    requires
        !s.cleared,
        auto_next(v, s, e).cleared,
    ensures
        e == ReclaimEvent::Checked(true),
        auto_next(v, s, e).at == s.at,
{
}

pub open spec fn unasked_receipt(c: CandidateView, ts: i64) -> ReceiptView {
    ReceiptView {
        ts,
        command: ActionKind::Reclaim,
        candidate_id: Some(c.id),
        rule_id: Some(c.rule_id),
        path: c.path,
        size_bytes: c.size_bytes,
        df_before: None,
        df_after: None,
        actually_freed: None,
        reversible: false,
        undo_cmd: None,
        rule_confidence: Some(c.confidence),
        context: seq![("auto"@, "true"@), ("trigger"@, "watch-urgent"@)],
    }
}

/// The receipt of a deletion that nobody asked for; it says so.
pub fn autoreclaim_receipt(c: &Candidate, ts: i64) -> (r: Entry)
    ensures
        r@ == unasked_receipt(c@, ts),
{
    let mut context: Vec<(String, String)> = Vec::new();
    context.push(("auto".to_owned(), "true".to_owned()));
    context.push(("trigger".to_owned(), "watch-urgent".to_owned()));
    assert(context_view(context@) =~= seq![("auto"@, "true"@), ("trigger"@, "watch-urgent"@)]);
    Entry {
        ts,
        command: ActionKind::Reclaim,
        candidate_id: Some(c.id.as_str().to_owned()),
        rule_id: Some(c.rule_id.as_str().to_owned()),
        path: c.path.as_str().to_owned(),
        size_bytes: c.size_bytes,
        df_before: None,
        df_after: None,
        actually_freed: None,
        reversible: false,
        undo_cmd: None,
        rule_confidence: Some(c.confidence),
        context,
    }
}

// ---------------------------------------------------------------------------
// Texts
// ---------------------------------------------------------------------------
/// A share in tenths of a percent, rounded to the nearest, a tie to the even one.
pub open spec fn tenths(share: u64) -> int {
    let q = share as int / 1_000_000;
    let r = share as int % 1_000_000;
    if r > 500_000 || (r == 500_000 && q % 2 == 1) {
        q + 1
    } else {
        q
    }
}

/// A share as a percentage with one decimal.
pub open spec fn percentage(share: u64) -> Seq<char> {
    decimal((tenths(share) / 10) as nat) + "."@ + decimal((tenths(share) % 10) as nat)
}

pub fn to_percentage(share: u64) -> (r: String)
    ensures
        r@ == percentage(share),
{
    let q: u64 = share / 1_000_000;
    let rest: u64 = share % 1_000_000;
    let t: u64 = if rest > 500_000 || (rest == 500_000 && q % 2 == 1) {
        q + 1
    } else {
        q
    };
    let mut out: String = to_decimal(t / 10);
    out.append(".");
    let last: String = to_decimal(t % 10);
    out.append(last.as_str());
    out
}

pub open spec fn title_of(level: Level, share: u64) -> Seq<char> {
    match level {
        Level::Urgent => if share < CRITICAL_FREE {
            "diskspace — disk CRITICALLY full"@
        } else {
            "diskspace — disk is full"@
        },
        Level::Soft => "diskspace — disk getting low"@,
        Level::Healthy => "diskspace — disk recovered"@,
    }
}

pub open spec fn body_of(level: Level, share: u64, size: Seq<char>) -> Seq<char> {
    match level {
        Level::Urgent => "Only "@ + percentage(share) + "% free ("@ + size
            + "). Run `diskspace doctor` to free space safely."@,
        Level::Soft => percentage(share) + "% free ("@ + size
            + "). Run `diskspace detect` to see what's cleanable."@,
        Level::Healthy => "Back above the 10% target ("@ + percentage(share) + "% free, "@ + size
            + "). Nothing to do."@,
    }
}

/// The title and the body of a notification; `size` is the free space as people read it.
pub fn notification(level: Level, share: u64, size: &str) -> (r: (String, String))
    ensures
        r.0@ == title_of(level, share),
        r.1@ == body_of(level, share, size@),
{
    let percent: String = to_percentage(share);
    match level {
        Level::Urgent => {
            let title: String = if share < CRITICAL_FREE {
                "diskspace — disk CRITICALLY full".to_owned()
            } else {
                "diskspace — disk is full".to_owned()
            };
            let mut body: String = "Only ".to_owned();
            body.append(percent.as_str());
            body.append("% free (");
            body.append(size);
            body.append("). Run `diskspace doctor` to free space safely.");
            (title, body)
        },
        Level::Soft => {
            let mut body: String = percent;
            body.append("% free (");
            body.append(size);
            body.append("). Run `diskspace detect` to see what's cleanable.");
            ("diskspace — disk getting low".to_owned(), body)
        },
        Level::Healthy => {
            let mut body: String = "Back above the 10% target (".to_owned();
            body.append(percent.as_str());
            body.append("% free, ");
            body.append(size);
            body.append("). Nothing to do.");
            ("diskspace — disk recovered".to_owned(), body)
        },
    }
}

/// A text with each double quote made a single one.
pub open spec fn unquoted(s: Seq<char>) -> Seq<char> {
    s.map_values(
        |c: char|
            if c == '"' {
                '\''
            } else {
                c
            },
    )
}

fn without_quotes(s: &str) -> (r: String)
    ensures
        r@ == unquoted(s@),
{
    let v: Vec<char> = chars_of(s);
    let mut out: String = String::new();
    let mut i: usize = 0;
    while i < v.len()
        invariant
            i <= v@.len(),
            v@ == s@,
            out@ == unquoted(s@.take(i as int)),
        decreases v.len() - i,
    {
        let c: char = if v[i] == '"' {
            '\''
        } else {
            v[i]
        };
        out.push(c);
        assert(unquoted(s@.take(i as int)).push(c) =~= unquoted(s@.take(i + 1)));
        i += 1;
    }
    assert(s@.take(i as int) =~= s@);
    out
}

pub open spec fn script_of(title: Seq<char>, body: Seq<char>) -> Seq<char> {
    "display notification \""@ + unquoted(body) + "\" with title \""@ + unquoted(title) + "\""@
}

/// The script that shows a notification. No quote of the texts can end its literals.
pub fn notification_script(title: &str, body: &str) -> (r: String)
    ensures
        r@ == script_of(title@, body@),
{
    let t: String = without_quotes(title);
    let b: String = without_quotes(body);
    let mut out: String = "display notification \"".to_owned();
    out.append(b.as_str());
    out.append("\" with title \"");
    out.append(t.as_str());
    out.append("\"");
    out
}

/// What is left of a text in the script holds no double quote.
pub proof fn script_texts_hold_no_quote(s: Seq<char>)
    ensures
        unquoted(s).len() == s.len(),
        forall|i: int| 0 <= i < s.len() ==> #[trigger] unquoted(s)[i] != '"',
{
}

// ---------------------------------------------------------------------------
// Files
// ---------------------------------------------------------------------------
pub fn launch_agent_plist_path(home: &str) -> (r: String)
    ensures
        r@ == joined_path(
            joined_path(joined_path(home@, "Library"@), "LaunchAgents"@),
            PLIST_LABEL@ + ".plist"@,
        ),
{
    let library: String = join_path(home, "Library");
    let agents: String = join_path(library.as_str(), "LaunchAgents");
    let mut name: String = PLIST_LABEL.to_owned();
    name.append(".plist");
    join_path(agents.as_str(), name.as_str())
}

pub fn state_dir(home: &str) -> (r: String)
    ensures
        r@ == joined_path(home@, ".diskspace"@),
{
    join_path(home, ".diskspace")
}

pub fn state_file(home: &str) -> (r: String)
    ensures
        r@ == joined_path(joined_path(home@, ".diskspace"@), "watch_state.json"@),
{
    let dir: String = state_dir(home);
    join_path(dir.as_str(), "watch_state.json")
}

pub open spec fn plist_head() -> Seq<char> {
    "<?xml version=\"1.0\" encoding=\"UTF-8\"?>\n<!DOCTYPE plist PUBLIC \"-//Apple//DTD PLIST 1.0//EN\" \"http://www.apple.com/DTDs/PropertyList-1.0.dtd\">\n<plist version=\"1.0\">\n<dict>\n    <key>Label</key>\n    <string>"@
}

/// The description of the launch agent: it runs `bin watch run` at load and then every
/// `CHECK_INTERVAL_SECONDS`, and logs to the two files.
pub open spec fn plist_of(bin: Seq<char>, stdout: Seq<char>, stderr: Seq<char>) -> Seq<char> {
    plist_head() + PLIST_LABEL@
        + "</string>\n    <key>ProgramArguments</key>\n    <array>\n        <string>"@ + bin
        + "</string>\n        <string>watch</string>\n        <string>run</string>\n    </array>\n    <key>StartInterval</key>\n    <integer>"@
        + decimal(CHECK_INTERVAL_SECONDS as nat)
        + "</integer>\n    <key>RunAtLoad</key>\n    <true/>\n    <key>StandardOutPath</key>\n    <string>"@
        + stdout + "</string>\n    <key>StandardErrorPath</key>\n    <string>"@ + stderr
        + "</string>\n    <key>ProcessType</key>\n    <string>Background</string>\n</dict>\n</plist>\n"@
}

pub fn launch_agent_plist(bin: &str, stdout: &str, stderr: &str) -> (r: String)
    ensures
        r@ == plist_of(bin@, stdout@, stderr@),
{
    let mut out: String =
        "<?xml version=\"1.0\" encoding=\"UTF-8\"?>\n<!DOCTYPE plist PUBLIC \"-//Apple//DTD PLIST 1.0//EN\" \"http://www.apple.com/DTDs/PropertyList-1.0.dtd\">\n<plist version=\"1.0\">\n<dict>\n    <key>Label</key>\n    <string>".to_owned();
    out.append(PLIST_LABEL);
    out.append(
        "</string>\n    <key>ProgramArguments</key>\n    <array>\n        <string>",
    );
    out.append(bin);
    out.append(
        "</string>\n        <string>watch</string>\n        <string>run</string>\n    </array>\n    <key>StartInterval</key>\n    <integer>",
    );
    let seconds: String = to_decimal(CHECK_INTERVAL_SECONDS as u64);
    out.append(seconds.as_str());
    out.append(
        "</integer>\n    <key>RunAtLoad</key>\n    <true/>\n    <key>StandardOutPath</key>\n    <string>",
    );
    out.append(stdout);
    out.append("</string>\n    <key>StandardErrorPath</key>\n    <string>");
    out.append(stderr);
    out.append(
        "</string>\n    <key>ProcessType</key>\n    <string>Background</string>\n</dict>\n</plist>\n",
    );
    out
}

/// Whether the list of loaded agents names this one.
pub fn agent_is_loaded(listing: &str) -> (r: bool)
    ensures
        r == occurs(listing@, PLIST_LABEL@),
{
    contains(listing, PLIST_LABEL)
}

} // verus!
