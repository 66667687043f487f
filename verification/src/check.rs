//! The pressure test: may this path be removed right now?
//!
//! Reading the disk is the caller's part. It hands over what it saw as [`Observations`]; every
//! verdict on them is given here.

use crate::detect::is_regenerable;
#[allow(unused_imports)]
use crate::detect::{listed, regenerable};
use crate::explain::{first_hit, format_recovery, rule_hits};
#[allow(unused_imports)]
use crate::explain::{first_true, pattern_hits, recovery_label};
use crate::globs::glob_match;
#[allow(unused_imports)]
use crate::globs::{glob_matches, literal, tree};
use crate::model::{
    duplicate_consequences, duplicate_contract, elapsed_days, Candidate, CheckResult, CheckStep,
    Profile, Rule, FULL_CONFIDENCE,
};
#[allow(unused_imports)]
use crate::model::{
    days_between, gate_view, rule_views, step_views, CheckView, ConsequencesView, ProfileView,
    RuleView, StepView,
};
use crate::paths::{expand_home, is_same_path, parts_of, starts_with};
#[allow(unused_imports)]
use crate::paths::{expanded, parent_parts, parts, same_path, under};
use crate::text::{contains, copy_option, same, to_decimal, to_decimal_int};
#[allow(unused_imports)]
use crate::text::{decimal, decimal_int, opt_view, views};
use vstd::prelude::*;

verus! {

// ---------------------------------------------------------------------------
// What was seen
// ---------------------------------------------------------------------------
/// What a search for databases at or beneath a path found.
#[derive(Debug)]
pub enum DbScan {
    Clean,
    Inconclusive,
    Found(String),
}

/// What the caller read from the disk about a path.
#[derive(Debug)]
pub struct Observations {
    /// The error that reading its metadata gave, if any.
    pub stat_error: Option<String>,
    /// The bytes that it takes on disk now.
    pub size_bytes: u64,
    /// How many lines the list of open files had, header included, if there was one.
    pub open_file_lines: Option<usize>,
    /// The program that it belongs to is running.
    pub owner_running: bool,
    /// A file at or beneath it was written within a day.
    pub recent_write: bool,
    /// The databases at or beneath it.
    pub databases: DbScan,
    /// For each of the [`git_head_files`] of the path, when it was last written, if it is there.
    pub git_heads: Vec<Option<i64>>,
}

pub open spec fn verdict(name: Seq<char>, passed: bool, note: Seq<char>) -> StepView {
    StepView { name, passed, note }
}

// ---------------------------------------------------------------------------
// Re-stat
// ---------------------------------------------------------------------------
pub open spec fn restat_step(
    stat_error: Option<Seq<char>>,
    recorded: u64,
    present: u64,
) -> StepView {
    match stat_error {
        Some(e) => verdict("re-stat"@, false, "cannot stat: "@ + e),
        None => if recorded == present {
            verdict("re-stat"@, true, "path exists and is readable"@)
        } else {
            verdict(
                "re-stat"@,
                false,
                "size changed since detect: "@ + decimal(recorded as nat) + " bytes then, "@
                    + decimal(present as nat) + " bytes now"@,
            )
        },
    }
}

/// The path still exists, can be read, and takes as many bytes as were recorded of it.
pub fn restat_check(stat_error: &Option<String>, recorded: u64, present: u64) -> (r: CheckStep)
    ensures
        r@ == restat_step(opt_view(*stat_error), recorded, present),
{
    match stat_error {
        Some(e) => {
            let mut note: String = "cannot stat: ".to_owned();
            note.append(e.as_str());
            CheckStep::new("re-stat", false, note)
        },
        None => {
            if recorded == present {
                return CheckStep::new("re-stat", true, "path exists and is readable".to_owned());
            }
            let mut note: String = "size changed since detect: ".to_owned();
            note.append(to_decimal(recorded).as_str());
            note.append(" bytes then, ");
            note.append(to_decimal(present).as_str());
            note.append(" bytes now");
            CheckStep::new("re-stat", false, note)
        },
    }
}

// ---------------------------------------------------------------------------
// Liveness
// ---------------------------------------------------------------------------
pub open spec fn liveness_step(
    open_file_lines: Option<usize>,
    owner_running: bool,
    recent_write: bool,
) -> StepView {
    if open_file_lines is Some && open_file_lines->0 > 1 {
        verdict(
            "liveness"@,
            false,
            decimal((open_file_lines->0 - 1) as nat) + " open file handle(s)"@,
        )
    } else if owner_running {
        verdict("liveness"@, false, "owning process is running"@)
    } else if recent_write {
        verdict("liveness"@, false, "files modified within last 24h"@)
    } else {
        verdict("liveness"@, true, "no open handles · no recent writes"@)
    }
}

/// Nobody has the path open, the program that it belongs to is not running, and nothing was
/// written there of late. A list of open files may be missing; the rest then decides.
pub fn liveness_check(
    open_file_lines: Option<usize>,
    owner_running: bool,
    recent_write: bool,
) -> (r: CheckStep)
    ensures
        r@ == liveness_step(open_file_lines, owner_running, recent_write),
{
    if let Some(lines) = open_file_lines {
        if lines > 1 {
            let mut note: String = to_decimal((lines - 1) as u64);
            note.append(" open file handle(s)");
            return CheckStep::new("liveness", false, note);
        }
    }
    if owner_running {
        CheckStep::new("liveness", false, "owning process is running".to_owned())
    } else if recent_write {
        CheckStep::new("liveness", false, "files modified within last 24h".to_owned())
    } else {
        CheckStep::new("liveness", true, "no open handles · no recent writes".to_owned())
    }
}

/// A file was written after the moment `hours` hours before `now`.
pub open spec fn written_within(mtimes: Seq<i64>, hours: u32, now: i64) -> bool {
    exists|i: int|
        0 <= i < mtimes.len() && #[trigger] mtimes[i] > now - hours * 3_600_000_000_000
}

/// Whether one of the files was written within the last `hours` hours.
pub fn any_recent(mtimes: &Vec<i64>, hours: u32, now: i64) -> (r: bool)
    ensures
        r == written_within(mtimes@, hours, now),
{
    let span: i128 = hours as i128 * 3_600_000_000_000;
    let cutoff: i128 = now as i128 - span;
    let mut i: usize = 0;
    while i < mtimes.len()
        invariant
            i <= mtimes@.len(),
            cutoff == now - hours * 3_600_000_000_000,
            forall|j: int|
                0 <= j < i ==> !(#[trigger] mtimes@[j] > now - hours * 3_600_000_000_000),
        decreases mtimes.len() - i,
    {
        if mtimes[i] as i128 > cutoff {
            return true;
        }
        i += 1;
    }
    false
}

// ---------------------------------------------------------------------------
// Data safety
// ---------------------------------------------------------------------------
/// Some rule covers the path, and every rule that does declares a class that regenerates.
pub open spec fn vouched(rules: Seq<RuleView>, hits: Seq<bool>) -> bool {
    &&& exists|i: int| 0 <= i < rules.len() && i < hits.len() && #[trigger] hits[i]
    &&& forall|i: int|
        0 <= i < rules.len() && i < hits.len() && #[trigger] hits[i] ==> rules[i].consequences is Some
            && regenerable(rules[i].consequences->0.recovery)
}

/// Whether the rules that cover a path all vouch that it regenerates.
pub fn is_regenerable_vouched(rules: &Vec<Rule>, hits: &Vec<bool>) -> (r: bool)
    ensures
        r == vouched(rule_views(rules@), hits@),
{
    let ghost rv = rule_views(rules@);
    let mut any: bool = false;
    let mut i: usize = 0;
    while i < rules.len() && i < hits.len()
        invariant
            i <= rules@.len(),
            i <= hits@.len(),
            rv == rule_views(rules@),
            any == exists|j: int| 0 <= j < i && #[trigger] hits@[j],
            forall|j: int|
                0 <= j < i && #[trigger] hits@[j] ==> rv[j].consequences is Some && regenerable(
                    rv[j].consequences->0.recovery,
                ),
        decreases rules.len() - i,
    {
        assert(rv[i as int] == rules@[i as int]@);
        if hits[i] {
            let good: bool = match &rules[i].consequences {
                Some(c) => is_regenerable(c.recovery.as_str()),
                None => false,
            };
            if !good {
                assert(hits@[i as int]);
                return false;
            }
            any = true;
            assert(hits@[i as int]);
        }
        i += 1;
    }
    any
}

/// A rule without wildcards names exactly this path.
pub open spec fn named_exactly(path: Seq<char>, rules: Seq<RuleView>, home: Seq<char>) -> bool {
    exists|i: int|
        0 <= i < rules.len() && literal((#[trigger] rules[i]).path_pattern) && same_path(
            expanded(rules[i].path_pattern, home),
            path,
        )
}

fn is_literal(pattern: &str) -> (r: bool)
    ensures
        r == literal(pattern@),
{
    let chars: Vec<char> = crate::text::chars_of(pattern);
    let mut i: usize = 0;
    while i < chars.len()
        invariant
            i <= chars@.len(),
            chars@ == pattern@,
            forall|j: int|
                0 <= j < i ==> #[trigger] chars@[j] != '*' && chars@[j] != '?' && chars@[j] != '[',
        decreases chars.len() - i,
    {
        if chars[i] == '*' || chars[i] == '?' || chars[i] == '[' {
            return false;
        }
        i += 1;
    }
    true
}

/// Whether a rule without wildcards names exactly this path.
pub fn rule_names_exact_path(path: &str, rules: &Vec<Rule>, home: &str) -> (r: bool)
    ensures
        r == named_exactly(path@, rule_views(rules@), home@),
{
    let ghost rv = rule_views(rules@);
    let mut i: usize = 0;
    while i < rules.len()
        invariant
            i <= rules@.len(),
            rv == rule_views(rules@),
            forall|j: int|
                0 <= j < i ==> !(literal((#[trigger] rv[j]).path_pattern) && same_path(
                    expanded(rv[j].path_pattern, home@),
                    path@,
                )),
        decreases rules.len() - i,
    {
        assert(rv[i as int] == rules@[i as int]@);
        if is_literal(rules[i].path_pattern.as_str()) {
            let named: String = expand_home(rules[i].path_pattern.as_str(), home);
            if is_same_path(named.as_str(), path) {
                return true;
            }
        }
        i += 1;
    }
    false
}

pub open spec fn data_safety_step(
    path: Seq<char>,
    vouched: bool,
    databases: DbScan,
    named: bool,
) -> StepView {
    if vouched {
        verdict("data safety"@, true, "regenerable build artifact (rule-vouched)"@)
    } else {
        match databases {
            DbScan::Clean => verdict("data safety"@, true, "no database files"@),
            DbScan::Inconclusive => verdict(
                "data safety"@,
                false,
                "too large to verify database-free — refused (fail-closed)"@,
            ),
            DbScan::Found(db) => if same_path(db@, path) && named {
                verdict("data safety"@, true, "rule names this exact database (curated)"@)
            } else {
                verdict(
                    "data safety"@,
                    false,
                    "contains a database ("@ + db@ + ") — never auto-deleted"@,
                )
            },
        }
    }
}

/// No database would be lost. What every covering rule vouches to regenerate passes; else a
/// database at or beneath the path fails it, unless a rule names that very file.
pub fn data_safety_check(path: &str, vouched: bool, databases: &DbScan, named: bool) -> (r:
    CheckStep)
    ensures
        r@ == data_safety_step(path@, vouched, *databases, named),
{
    if vouched {
        return CheckStep::new(
            "data safety",
            true,
            "regenerable build artifact (rule-vouched)".to_owned(),
        );
    }
    match databases {
        DbScan::Clean => CheckStep::new("data safety", true, "no database files".to_owned()),
        DbScan::Inconclusive => CheckStep::new(
            "data safety",
            false,
            "too large to verify database-free — refused (fail-closed)".to_owned(),
        ),
        DbScan::Found(db) => {
            if is_same_path(db.as_str(), path) && named {
                CheckStep::new(
                    "data safety",
                    true,
                    "rule names this exact database (curated)".to_owned(),
                )
            } else {
                let mut note: String = "contains a database (".to_owned();
                note.append(db.as_str());
                note.append(") — never auto-deleted");
                CheckStep::new("data safety", false, note)
            }
        },
    }
}

// ---------------------------------------------------------------------------
// Profile policy
// ---------------------------------------------------------------------------
/// Which of the bases, with the home directory filled in, hold the path.
pub open spec fn base_hits(path: Seq<char>, bases: Seq<Seq<char>>, home: Seq<char>) -> Seq<bool> {
    bases.map_values(|b: Seq<char>| under(path, expanded(b, home)))
}

/// Which of the patterns, with the home directory filled in, accept the path.
pub open spec fn list_hits(path: Seq<char>, patterns: Seq<Seq<char>>, home: Seq<char>) -> Seq<
    bool,
> {
    patterns.map_values(|p: Seq<char>| glob_matches(expanded(p, home), path))
}

pub open spec fn policy_step(
    path: Seq<char>,
    prof: ProfileView,
    home: Seq<char>,
    secret_stores: Seq<Seq<char>>,
    touch_hits: Seq<bool>,
) -> StepView {
    match first_true(base_hits(path, secret_stores, home)) {
        Some(i) => verdict(
            "profile policy"@,
            false,
            "built-in never_touch (secret store): "@ + secret_stores[i as int],
        ),
        None => match first_true(touch_hits) {
            Some(i) => verdict(
                "profile policy"@,
                false,
                "blocked by never_touch: "@ + prof.never_touch[i as int],
            ),
            None => match first_true(base_hits(path, prof.never_suggest, home)) {
                Some(i) => verdict(
                    "profile policy"@,
                    false,
                    "marked never_suggest: "@ + prof.never_suggest[i as int],
                ),
                None => verdict("profile policy"@, true, "no policy blocks"@),
            },
        },
    }
}

fn bases_holding(path: &str, bases: &Vec<String>, home: &str) -> (r: Vec<bool>)
    ensures
        r@ == base_hits(path@, views(bases@), home@),
{
    let mut out: Vec<bool> = Vec::new();
    let mut i: usize = 0;
    while i < bases.len()
        invariant
            i <= bases@.len(),
            out@.len() == i,
            forall|j: int|
                0 <= j < i ==> #[trigger] out@[j] == under(path@, expanded(bases@[j]@, home@)),
        decreases bases.len() - i,
    {
        let base: String = expand_home(bases[i].as_str(), home);
        out.push(starts_with(path, base.as_str()));
        i += 1;
    }
    assert(out@ =~= base_hits(path@, views(bases@), home@));
    out
}

fn patterns_accepting(path: &str, patterns: &Vec<String>, home: &str) -> (r: Vec<bool>)
    ensures
        r@ == list_hits(path@, views(patterns@), home@),
{
    let mut out: Vec<bool> = Vec::new();
    let mut i: usize = 0;
    while i < patterns.len()
        invariant
            i <= patterns@.len(),
            out@.len() == i,
            forall|j: int|
                0 <= j < i ==> #[trigger] out@[j] == glob_matches(
                    expanded(patterns@[j]@, home@),
                    path@,
                ),
        decreases patterns.len() - i,
    {
        let pattern: String = expand_home(patterns[i].as_str(), home);
        out.push(glob_match(pattern.as_str(), path));
        i += 1;
    }
    assert(out@ =~= list_hits(path@, views(patterns@), home@));
    out
}

fn blocked_by(reason: &str, which: &String) -> (r: CheckStep)
    ensures
        r@ == verdict("profile policy"@, false, reason@ + which@),
{
    let mut note: String = reason.to_owned();
    note.append(which.as_str());
    CheckStep::new("profile policy", false, note)
}

/// The policy verdict, given which never-touch patterns accept the path.
pub fn policy_from(
    path: &str,
    prof: &Profile,
    home: &str,
    secret_stores: &Vec<String>,
    touch_hits: &Vec<bool>,
) -> (r: CheckStep)
    requires
        touch_hits@.len() <= prof.paths.never_touch@.len(),
    ensures
        r@ == policy_step(path@, prof@, home@, views(secret_stores@), touch_hits@),
{
    let stores: Vec<bool> = bases_holding(path, secret_stores, home);
    if let Some(i) = first_hit(&stores) {
        assert(views(secret_stores@)[i as int] == secret_stores@[i as int]@);
        return blocked_by("built-in never_touch (secret store): ", &secret_stores[i]);
    }
    if let Some(i) = first_hit(touch_hits) {
        assert(prof@.never_touch[i as int] == prof.paths.never_touch@[i as int]@);
        return blocked_by("blocked by never_touch: ", &prof.paths.never_touch[i]);
    }
    let suggest: Vec<bool> = bases_holding(path, &prof.paths.never_suggest, home);
    if let Some(i) = first_hit(&suggest) {
        assert(prof@.never_suggest[i as int] == prof.paths.never_suggest@[i as int]@);
        return blocked_by("marked never_suggest: ", &prof.paths.never_suggest[i]);
    }
    CheckStep::new("profile policy", true, "no policy blocks".to_owned())
}

/// No policy forbids the path: neither the built-in secret stores, nor the profile's
/// never-touch patterns, nor its never-suggest paths.
pub fn policy_check(path: &str, prof: &Profile, home: &str, secret_stores: &Vec<String>) -> (r:
    CheckStep)
    ensures
        r@ == policy_step(
            path@,
            prof@,
            home@,
            views(secret_stores@),
            list_hits(path@, prof@.never_touch, home@),
        ),
{
    let hits: Vec<bool> = patterns_accepting(path, &prof.paths.never_touch, home);
    assert(hits@.len() == prof.paths.never_touch@.len());
    policy_from(path, prof, home, secret_stores, &hits)
}

// ---------------------------------------------------------------------------
// Enclosing repositories
// ---------------------------------------------------------------------------
/// A directory and those that hold it, each by its components, up to the root.
pub open spec fn upwards(p: Seq<Seq<char>>) -> Seq<Seq<Seq<char>>>
    decreases p.len(),
{
    match parent_parts(p) {
        Some(q) => seq![p] + upwards(q),
        None => seq![p],
    }
}

/// The directory from which the search for a repository starts: the path itself, or the one that
/// holds it where it is no directory.
pub open spec fn search_start(p: Seq<Seq<char>>, is_dir: bool) -> Seq<Seq<char>> {
    if is_dir {
        p
    } else {
        match parent_parts(p) {
            Some(q) => q,
            None => p,
        }
    }
}

pub open spec fn head_in(dir: Seq<Seq<char>>) -> Seq<Seq<char>> {
    dir.push(".git"@).push("HEAD"@)
}

/// The files that tell of git activity around a path, the nearest first.
pub open spec fn heads_around(p: Seq<Seq<char>>, is_dir: bool) -> Seq<Seq<Seq<char>>> {
    upwards(search_start(p, is_dir)).map_values(|d: Seq<Seq<char>>| head_in(d))
}

pub open spec fn path_views(v: Seq<Vec<String>>) -> Seq<Seq<Seq<char>>> {
    v.map_values(|p: Vec<String>| views(p@))
}

fn head_file(p: &Vec<String>, n: usize) -> (r: Vec<String>)
    requires
        n <= p@.len(),
    ensures
        views(r@) == head_in(views(p@).take(n as int)),
{
    let mut out: Vec<String> = Vec::new();
    let mut i: usize = 0;
    while i < n
        invariant
            i <= n <= p@.len(),
            out@.len() == i,
            forall|j: int| 0 <= j < i ==> (#[trigger] out@[j])@ == p@[j]@,
        decreases n - i,
    {
        out.push(p[i].as_str().to_owned());
        i += 1;
    }
    out.push(".git".to_owned());
    out.push("HEAD".to_owned());
    assert(views(out@) =~= head_in(views(p@).take(n as int)));
    out
}

/// Where to look for git activity around a path: each file by its components, the nearest first.
pub fn git_head_files(path: &str, is_dir: bool) -> (r: Vec<Vec<String>>)
    ensures
        path_views(r@) == heads_around(parts(path@), is_dir),
{
    let p: Vec<String> = parts_of(path);
    let ghost w = views(p@);
    assert(w == parts(path@));
    assert(w.len() == p@.len());
    proof {
        reveal_strlit("/");
        assert("/"@ =~= seq!['/']);
    }
    let mut n: usize = p.len();
    assert(w.take(n as int) =~= w);
    if !is_dir && n > 0 && !same(p[n - 1].as_str(), "/") {
        assert(w.last() == p@[n - 1]@);
        assert(w.drop_last() =~= w.take(n - 1));
        n = n - 1;
    }
    assert(search_start(w, is_dir) =~= w.take(n as int)) by {
        if !is_dir && p@.len() > 0 {
            assert(w.last() == p@[p@.len() - 1]@);
        }
    }
    let ghost all = upwards(w.take(n as int));
    let mut out: Vec<Vec<String>> = Vec::new();
    let ghost mut done: Seq<Seq<Seq<char>>> = Seq::empty();
    assert(path_views(out@) =~= done.map_values(|d: Seq<Seq<char>>| head_in(d)));
    assert(done + upwards(w.take(n as int)) =~= all);
    loop
        invariant_except_break
            n <= p@.len(),
            w == views(p@),
            w.len() == p@.len(),
            "/"@ == seq!['/'],
            all == done + upwards(w.take(n as int)),
            path_views(out@) == done.map_values(|d: Seq<Seq<char>>| head_in(d)),
        ensures
            path_views(out@) == all.map_values(|d: Seq<Seq<char>>| head_in(d)),
        decreases n,
    {
        let ghost here = w.take(n as int);
        let ghost before = out@;
        out.push(head_file(&p, n));
        assert(path_views(out@) =~= path_views(before).push(head_in(here)));
        let ghost next = done.push(here);
        assert(path_views(out@) =~= next.map_values(|d: Seq<Seq<char>>| head_in(d)));
        let top: bool = n == 0 || same(p[n - 1].as_str(), "/");
        proof {
            if n > 0 {
                assert(here.last() == p@[n - 1]@);
            }
            if top {
                assert(parent_parts(here) is None);
                assert(all =~= next);
            } else {
                assert(here.drop_last() =~= w.take(n - 1));
                assert(upwards(here) == seq![here] + upwards(w.take(n - 1)));
                assert(all =~= next + upwards(w.take(n - 1)));
            }
            done = next;
        }
        if top {
            break;
        }
        n = n - 1;
    }
    out
}

/// The search goes up to the root: it looks in every directory that holds the path.
pub proof fn search_reaches_every_enclosing_directory(p: Seq<Seq<char>>, k: int)
    requires
        0 < k <= p.len(),
        forall|i: int| 0 < i < p.len() ==> #[trigger] p[i] != seq!['/'],
    ensures
        heads_around(p, true).contains(head_in(p.take(k))),
    decreases p.len(),
{
    if k == p.len() {
        assert(p.take(k) =~= p);
        assert(upwards(p)[0] == p);
        assert(heads_around(p, true)[0] == head_in(p));
    } else {
        let q = p.drop_last();
        assert(p.last() == p[p.len() - 1]);
        assert(parent_parts(p) == Some(q));
        search_reaches_every_enclosing_directory(q, k);
        assert(q.take(k) =~= p.take(k));
        let i = choose|i: int|
            0 <= i < heads_around(q, true).len() && heads_around(q, true)[i] == head_in(q.take(k));
        assert(upwards(p)[i + 1] == upwards(q)[i]);
        assert(heads_around(p, true)[i + 1] == head_in(p.take(k)));
    }
}

// ---------------------------------------------------------------------------
// Project recency
// ---------------------------------------------------------------------------
/// The first head that was found.
pub open spec fn nearest_head(heads: Seq<Option<i64>>) -> Option<i64>
    decreases heads.len(),
{
    if heads.len() == 0 {
        None
    } else if heads[0] is Some {
        heads[0]
    } else {
        nearest_head(heads.drop_first())
    }
}

pub open spec fn recency_step(heads: Seq<Option<i64>>, now: i64) -> StepView {
    match nearest_head(heads) {
        None => verdict("project recency"@, true, "no enclosing git repo"@),
        Some(t) => {
            let days = days_between(now, t);
            if days >= 7 {
                verdict(
                    "project recency"@,
                    true,
                    "last git activity "@ + decimal_int(days) + " days ago"@,
                )
            } else {
                verdict(
                    "project recency"@,
                    false,
                    "git activity "@ + decimal_int(days)
                        + " day(s) ago — project may be active"@,
                )
            }
        },
    }
}

/// The nearest enclosing repository has been quiet for a week, or there is none.
pub fn recency_check(git_heads: &Vec<Option<i64>>, now: i64) -> (r: CheckStep)
    ensures
        r@ == recency_step(git_heads@, now),
{
    let mut i: usize = 0;
    assert(git_heads@.skip(0) =~= git_heads@);
    while i < git_heads.len()
        invariant
            i <= git_heads@.len(),
            nearest_head(git_heads@) == nearest_head(git_heads@.skip(i as int)),
        decreases git_heads.len() - i,
    {
        assert(git_heads@.skip(i as int)[0] == git_heads@[i as int]);
        assert(git_heads@.skip(i as int).drop_first() =~= git_heads@.skip(i + 1));
        if let Some(t) = git_heads[i] {
            let days: i64 = elapsed_days(now, t);
            let n: String = to_decimal_int(days);
            if days >= 7 {
                let mut note: String = "last git activity ".to_owned();
                note.append(n.as_str());
                note.append(" days ago");
                return CheckStep::new("project recency", true, note);
            } else {
                let mut note: String = "git activity ".to_owned();
                note.append(n.as_str());
                note.append(" day(s) ago — project may be active");
                return CheckStep::new("project recency", false, note);
            }
        }
        i += 1;
    }
    CheckStep::new("project recency", true, "no enclosing git repo".to_owned())
}

// ---------------------------------------------------------------------------
// All steps together
// ---------------------------------------------------------------------------
pub open spec fn all_passed(steps: Seq<StepView>) -> bool {
    forall|i: int| 0 <= i < steps.len() ==> (#[trigger] steps[i]).passed
}

/// One, halved for every step that failed.
pub open spec fn decayed(steps: Seq<StepView>) -> nat
    decreases steps.len(),
{
    if steps.len() == 0 {
        FULL_CONFIDENCE as nat
    } else if steps.last().passed {
        decayed(steps.drop_last())
    } else {
        decayed(steps.drop_last()) / 2
    }
}

/// The verdict that a list of steps gives: safe where all passed.
pub open spec fn judged(candidate_id: Seq<char>, steps: Seq<StepView>) -> CheckView {
    gate_view(candidate_id, all_passed(steps), decayed(steps) as u32, steps)
}

/// The verdict over a list of steps.
pub fn judge(candidate_id: &str, steps: Vec<CheckStep>) -> (r: CheckResult)
    ensures
        r@ == judged(candidate_id@, step_views(steps@)),
{
    let ghost w = step_views(steps@);
    let mut safe: bool = true;
    let mut confidence: u32 = FULL_CONFIDENCE;
    let mut i: usize = 0;
    assert(w.take(0) =~= Seq::<StepView>::empty());
    while i < steps.len()
        invariant
            i <= steps@.len(),
            w == step_views(steps@),
            safe == forall|j: int| 0 <= j < i ==> (#[trigger] w[j]).passed,
            confidence == decayed(w.take(i as int)),
        decreases steps.len() - i,
    {
        assert(w[i as int] == steps@[i as int]@);
        assert(w.take(i + 1).drop_last() =~= w.take(i as int));
        assert(w.take(i + 1).last() == w[i as int]);
        if !steps[i].passed {
            safe = false;
            confidence = confidence / 2;
        }
        i += 1;
    }
    assert(w.take(i as int) =~= w);
    CheckResult::gate(candidate_id.to_owned(), safe, confidence, steps)
}

/// What the pressure test is asked about. A size is held against the present one where one was
/// recorded.
pub ghost struct Question {
    pub path: Seq<char>,
    pub recorded: Option<u64>,
    pub prof: ProfileView,
    pub rules: Seq<RuleView>,
    pub home: Seq<char>,
    pub secret_stores: Seq<Seq<char>>,
    pub now: i64,
}

/// The recorded size; the present one where none was.
pub open spec fn size_or(recorded: Option<u64>, present: u64) -> u64 {
    match recorded {
        Some(n) => n,
        None => present,
    }
}

pub open spec fn steps_of(q: Question, seen: Observations) -> Seq<StepView> {
    seq![
        restat_step(
            opt_view(seen.stat_error),
            size_or(q.recorded, seen.size_bytes),
            seen.size_bytes,
        ),
        liveness_step(seen.open_file_lines, seen.owner_running, seen.recent_write),
        data_safety_step(
            q.path,
            vouched(q.rules, pattern_hits(q.rules, q.path, q.home)),
            seen.databases,
            named_exactly(q.path, q.rules, q.home),
        ),
        policy_step(
            q.path,
            q.prof,
            q.home,
            q.secret_stores,
            list_hits(q.path, q.prof.never_touch, q.home),
        ),
        recency_step(seen.git_heads@, q.now),
    ]
}

/// Runs the five validators over what was seen of a path. The path is safe where all pass.
pub fn pressure_test(
    candidate_id: &str,
    path: &str,
    recorded: Option<u64>,
    prof: &Profile,
    rules: &Vec<Rule>,
    home: &str,
    secret_stores: &Vec<String>,
    seen: &Observations,
    now: i64,
) -> (r: CheckResult)
    ensures
        r@ == judged(
            candidate_id@,
            steps_of(
                (Question {
                    path: path@,
                    recorded,
                    prof: prof@,
                    rules: rule_views(rules@),
                    home: home@,
                    secret_stores: views(secret_stores@),
                    now,
                }),
                *seen,
            ),
        ),
{
    let hits: Vec<bool> = rule_hits(rules, path, home);
    let vouched: bool = is_regenerable_vouched(rules, &hits);
    let named: bool = rule_names_exact_path(path, rules, home);
    let mut steps: Vec<CheckStep> = Vec::new();
    let size: u64 = match recorded {
        Some(n) => n,
        None => seen.size_bytes,
    };
    steps.push(restat_check(&seen.stat_error, size, seen.size_bytes));
    steps.push(liveness_check(seen.open_file_lines, seen.owner_running, seen.recent_write));
    steps.push(data_safety_check(path, vouched, &seen.databases, named));
    steps.push(policy_check(path, prof, home, secret_stores));
    steps.push(recency_check(&seen.git_heads, now));
    assert(step_views(steps@) =~= steps_of(
        (Question {
            path: path@,
            recorded,
            prof: prof@,
            rules: rule_views(rules@),
            home: home@,
            secret_stores: views(secret_stores@),
            now,
        }),
        *seen,
    ));
    judge(candidate_id, steps)
}

/// Runs the validators over a candidate; its size must be the one that was detected.
pub fn check_candidate(
    c: &Candidate,
    prof: &Profile,
    rules: &Vec<Rule>,
    home: &str,
    secret_stores: &Vec<String>,
    seen: &Observations,
    now: i64,
) -> (r: CheckResult)
    ensures
        r@ == judged(
            c.id@,
            steps_of(
                (Question {
                    path: c.path@,
                    recorded: Some(c.size_bytes),
                    prof: prof@,
                    rules: rule_views(rules@),
                    home: home@,
                    secret_stores: views(secret_stores@),
                    now,
                }),
                *seen,
            ),
        ),
{
    pressure_test(
        c.id.as_str(),
        c.path.as_str(),
        Some(c.size_bytes),
        prof,
        rules,
        home,
        secret_stores,
        seen,
        now,
    )
}

/// A validator failed, and none but the profile policy did.
pub open spec fn only_policy_failed(steps: Seq<StepView>) -> bool {
    &&& exists|i: int| 0 <= i < steps.len() && !(#[trigger] steps[i]).passed
    &&& forall|i: int|
        0 <= i < steps.len() && !(#[trigger] steps[i]).passed ==> steps[i].name
            == "profile policy"@
}

/// The process exit code of a check: 0 where the path is safe, 3 where the profile policy alone
/// blocks it, 2 where the pressure test failed otherwise.
pub open spec fn check_exit(safe: bool, steps: Seq<StepView>) -> i32 {
    if safe {
        0
    } else if only_policy_failed(steps) {
        3
    } else {
        2
    }
}

pub fn exit_code(result: &CheckResult) -> (r: i32)
    ensures
        r == check_exit(result.safe, result@.steps),
{
    if result.safe {
        return 0;
    }
    let ghost w = result@.steps;
    let mut failed: bool = false;
    let mut i: usize = 0;
    while i < result.steps.len()
        invariant
            i <= result.steps@.len(),
            !result.safe,
            w == result@.steps,
            w == step_views(result.steps@),
            failed == exists|j: int| 0 <= j < i && !(#[trigger] w[j]).passed,
            forall|j: int|
                0 <= j < i && !(#[trigger] w[j]).passed ==> w[j].name == "profile policy"@,
        decreases result.steps.len() - i,
    {
        assert(w[i as int] == result.steps@[i as int]@);
        if !result.steps[i].passed {
            if !same(result.steps[i].name.as_str(), "profile policy") {
                assert(!only_policy_failed(w));
                return 2;
            }
            failed = true;
        }
        i += 1;
    }
    if failed {
        3
    } else {
        2
    }
}

/// The position of the first candidate with an id.
pub fn find_candidate(candidates: &Vec<Candidate>, id: &str) -> (r: Option<usize>)
    ensures
        match r {
            Some(i) => i < candidates@.len() && candidates@[i as int].id@ == id@ && forall|j: int|
                0 <= j < i ==> (#[trigger] candidates@[j]).id@ != id@,
            None => forall|j: int|
                0 <= j < candidates@.len() ==> (#[trigger] candidates@[j]).id@ != id@,
        },
{
    let mut i: usize = 0;
    while i < candidates.len()
        invariant
            i <= candidates@.len(),
            forall|j: int| 0 <= j < i ==> (#[trigger] candidates@[j]).id@ != id@,
        decreases candidates.len() - i,
    {
        if same(candidates[i].id.as_str(), id) {
            return Some(i);
        }
        i += 1;
    }
    None
}

/// Copies what agents read from the candidate onto a verdict that stands already.
pub fn attach_candidate(result: &mut CheckResult, c: &Candidate)
    ensures
        final(result)@ == (CheckView {
            consequences: c@.consequences,
            consequence_contract: c@.consequence_contract,
            metrics: c@.metrics,
            reference_url: c@.reference_url,
            ..old(result)@
        }),
{
    result.consequences = duplicate_consequences(&c.consequences);
    result.consequence_contract = duplicate_contract(&c.consequence_contract);
    result.metrics = c.metrics;
    result.reference_url = copy_option(&c.reference_url);
}

// ---------------------------------------------------------------------------
// Showing a verdict
// ---------------------------------------------------------------------------
/// One line of a shown verdict.
#[derive(Debug)]
pub enum CheckRow {
    Title(String),
    Step { passed: bool, name: String, note: String },
    Safe { confidence: u32 },
    Unsafe,
    Heading(String),
    Field { label: String, value: String },
    Next(String),
}

pub ghost enum CheckRowView {
    Title(Seq<char>),
    Step { passed: bool, name: Seq<char>, note: Seq<char> },
    Safe { confidence: u32 },
    Unsafe,
    Heading(Seq<char>),
    Field { label: Seq<char>, value: Seq<char> },
    Next(Seq<char>),
}

impl View for CheckRow {
    type V = CheckRowView;

    open spec fn view(&self) -> CheckRowView {
        match self {
            CheckRow::Title(s) => CheckRowView::Title(s@),
            CheckRow::Step { passed, name, note } => CheckRowView::Step {
                passed: *passed,
                name: name@,
                note: note@,
            },
            CheckRow::Safe { confidence } => CheckRowView::Safe { confidence: *confidence },
            CheckRow::Unsafe => CheckRowView::Unsafe,
            CheckRow::Heading(s) => CheckRowView::Heading(s@),
            CheckRow::Field { label, value } => CheckRowView::Field { label: label@, value: value@ },
            CheckRow::Next(s) => CheckRowView::Next(s@),
        }
    }
}

pub open spec fn row_views(v: Seq<CheckRow>) -> Seq<CheckRowView> {
    v.map_values(|r: CheckRow| r@)
}

pub open spec fn step_row(s: StepView) -> CheckRowView {
    CheckRowView::Step { passed: s.passed, name: s.name, note: s.note }
}

pub open spec fn consequence_rows(c: Option<ConsequencesView>) -> Seq<CheckRowView> {
    match c {
        None => Seq::empty(),
        Some(c) => {
            let base = seq![
                CheckRowView::Heading("if you delete this"@),
                CheckRowView::Field {
                    label: "recovery"@,
                    value: recovery_label(c.recovery, c.rebuild_seconds),
                },
                CheckRowView::Field { label: "impact"@, value: c.impact },
            ];
            match c.recovery_cmd {
                None => base,
                Some(cmd) => base.push(CheckRowView::Field { label: "recover"@, value: cmd }),
            }
        },
    }
}

/// The lines that show an outcome: the steps, whether the path is safe, what deleting means and the next
/// command where the path is safe.
pub open spec fn check_rows(r: CheckView) -> Seq<CheckRowView> {
    seq![CheckRowView::Title("check  ·  "@ + r.candidate_id)] + r.steps.map_values(
        |s: StepView| step_row(s),
    ) + seq![
        if r.safe {
            CheckRowView::Safe { confidence: r.confidence }
        } else {
            CheckRowView::Unsafe
        },
    ] + consequence_rows(r.consequences) + (if r.safe {
        seq![CheckRowView::Next("diskspace airlock "@ + r.candidate_id)]
    } else {
        Seq::empty()
    })
}

fn field(label: &str, value: String) -> (r: CheckRow)
    ensures
        r@ == (CheckRowView::Field { label: label@, value: value@ }),
{
    CheckRow::Field { label: label.to_owned(), value }
}

/// The lines that show a verdict.
pub fn render_check_result_pub(result: &CheckResult) -> (r: Vec<CheckRow>)
    ensures
        row_views(r@) == check_rows(result@),
{
    let ghost v = result@;
    let ghost steps = v.steps.map_values(|s: StepView| step_row(s));
    let mut out: Vec<CheckRow> = Vec::new();
    let mut title: String = "check  ·  ".to_owned();
    title.append(result.candidate_id.as_str());
    let ghost head = seq![CheckRowView::Title("check  ·  "@ + v.candidate_id)];
    out.push(CheckRow::Title(title));
    assert(row_views(out@) =~= head + steps.take(0));
    let mut i: usize = 0;
    while i < result.steps.len()
        invariant
            i <= result.steps@.len(),
            v == result@,
            steps == v.steps.map_values(|s: StepView| step_row(s)),
            row_views(out@) == head + steps.take(i as int),
        decreases result.steps.len() - i,
    {
        let ghost before = row_views(out@);
        let s: &CheckStep = &result.steps[i];
        out.push(
            CheckRow::Step {
                passed: s.passed,
                name: s.name.as_str().to_owned(),
                note: s.note.as_str().to_owned(),
            },
        );
        assert(v.steps[i as int] == s@);
        assert(row_views(out@) =~= before.push(steps[i as int]));
        assert(before.push(steps[i as int]) =~= head + steps.take(i + 1));
        i += 1;
    }
    assert(steps.take(i as int) =~= steps);
    let ghost r1 = row_views(out@);
    if result.safe {
        out.push(CheckRow::Safe { confidence: result.confidence });
    } else {
        out.push(CheckRow::Unsafe);
    }
    let ghost outcome = if v.safe {
        CheckRowView::Safe { confidence: v.confidence }
    } else {
        CheckRowView::Unsafe
    };
    assert(row_views(out@) =~= r1 + seq![outcome]);
    let ghost r2 = row_views(out@);
    if let Some(c) = &result.consequences {
        out.push(CheckRow::Heading("if you delete this".to_owned()));
        out.push(field("recovery", format_recovery(c.recovery.as_str(), c.rebuild_seconds)));
        out.push(field("impact", c.impact.as_str().to_owned()));
        if let Some(cmd) = &c.recovery_cmd {
            out.push(field("recover", cmd.as_str().to_owned()));
        }
    }
    assert(row_views(out@) =~= r2 + consequence_rows(v.consequences));
    let ghost r3 = row_views(out@);
    if result.safe {
        let mut next: String = "diskspace airlock ".to_owned();
        next.append(result.candidate_id.as_str());
        out.push(CheckRow::Next(next));
        assert(row_views(out@) =~= r3 + seq![
            CheckRowView::Next("diskspace airlock "@ + v.candidate_id),
        ]);
    } else {
        assert(row_views(out@) =~= r3 + Seq::<CheckRowView>::empty());
    }
    out
}

// ---------------------------------------------------------------------------
// What holds of every outcome
// ---------------------------------------------------------------------------
proof fn lemma_first_true_found(hits: Seq<bool>, i: int)
    requires
        0 <= i < hits.len(),
        hits[i],
    ensures
        first_true(hits) is Some,
    decreases hits.len(),
{
    if i < hits.len() - 1 {
        assert(hits.drop_last()[i]);
        lemma_first_true_found(hits.drop_last(), i);
    }
}

/// A path is safe only where every validator passed, and one failure is enough to make it
/// unsafe.
pub proof fn one_failure_blocks(candidate_id: Seq<char>, steps: Seq<StepView>, i: int)
    requires
        0 <= i < steps.len(),
        !steps[i].passed,
    ensures
        !judged(candidate_id, steps).safe,
{
}

/// A path that a never-touch pattern accepts is never safe, whatever else was seen.
pub proof fn never_touch_is_never_safe(
    candidate_id: Seq<char>,
    q: Question,
    seen: Observations,
)
    requires
        listed(q.path, q.prof.never_touch, q.home),
    ensures
        !judged(candidate_id, steps_of(q, seen)).safe,
{
    let hits = list_hits(q.path, q.prof.never_touch, q.home);
    let i = choose|i: int|
        0 <= i < q.prof.never_touch.len() && glob_matches(
            expanded(#[trigger] q.prof.never_touch[i], q.home),
            q.path,
        );
    assert(hits[i]);
    lemma_first_true_found(hits, i);
    assert(!steps_of(q, seen)[3].passed);
}

/// A path that the profile names, or that lies in a directory that it lists with `/**` behind it,
/// is never safe.
pub proof fn named_path_is_never_safe(
    candidate_id: Seq<char>,
    q: Question,
    seen: Observations,
    i: int,
)
    requires
        0 <= i < q.prof.never_touch.len(),
        ({
            let p = expanded(q.prof.never_touch[i], q.home);
            (literal(p) && p == q.path) || (tree(p) && p.take(p.len() - 2).is_prefix_of(
                q.path,
            ))
        }),
    ensures
        !judged(candidate_id, steps_of(q, seen)).safe,
{
    let p = expanded(q.prof.never_touch[i], q.home);
    if tree(p) {
        assert(p[p.len() - 1] == '*');
    }
    assert(glob_matches(expanded(q.prof.never_touch[i], q.home), q.path));
    assert(listed(q.path, q.prof.never_touch, q.home));
    never_touch_is_never_safe(candidate_id, q, seen);
}

/// A path at or beneath a secret store is never safe, whatever the profile says.
pub proof fn secret_store_is_never_safe(
    candidate_id: Seq<char>,
    q: Question,
    seen: Observations,
    i: int,
)
    requires
        0 <= i < q.secret_stores.len(),
        under(q.path, expanded(q.secret_stores[i], q.home)),
    ensures
        !judged(candidate_id, steps_of(q, seen)).safe,
{
    let hits = base_hits(q.path, q.secret_stores, q.home);
    assert(hits[i]);
    lemma_first_true_found(hits, i);
    assert(!steps_of(q, seen)[3].passed);
}

/// A path that holds a database is never safe, unless every covering rule vouches that it
/// regenerates or a rule names that very file.
pub proof fn database_is_never_safe(candidate_id: Seq<char>, q: Question, seen: Observations)
    requires
        seen.databases is Found,
        !vouched(q.rules, pattern_hits(q.rules, q.path, q.home)),
        !(same_path(seen.databases->Found_0@, q.path) && named_exactly(q.path, q.rules, q.home)),
    ensures
        !judged(candidate_id, steps_of(q, seen)).safe,
{
    assert(!steps_of(q, seen)[2].passed);
}

/// A candidate that no longer takes the bytes that were detected is never safe.
pub proof fn changed_size_is_never_safe(candidate_id: Seq<char>, q: Question, seen: Observations)
    requires
        q.recorded is Some,
        q.recorded->0 != seen.size_bytes,
    ensures
        !judged(candidate_id, steps_of(q, seen)).safe,
{
    assert(!steps_of(q, seen)[0].passed);
}

} // verus!
