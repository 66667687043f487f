use diskspace::acute::{
    acute_begin, acute_class_rank, acute_receipt, acute_reclaim, acute_stabilize,
    acute_target_bytes, consent_total, is_acute, is_acute_safe_class, needs_consent,
    resolve_min_free_pct, AcuteAction, AcuteEvent, AcuteRun,
};
use diskspace::check::{pressure_test, DbScan, Observations};
use diskspace::detect::build_candidates_pub;
use diskspace::doctor::{
    acute_result, build_plan, choose_mode, consequences_from_contract, next_stage, parse_need,
    parse_size, preflight_warns, refuses_without_grant, scan_is_fresh, triage_commands,
    unmet_commands, AcuteResult, Mode, Plan, PlanStep, Stage, DEFAULT_MIN_FREE,
};
use diskspace::execute::{
    execute_begin, execute_outcome, execute_plan, step_receipt, ExecuteAction, ExecuteEvent,
    ExecuteOutcome, Execution, Item,
};
use diskspace::grant::{Denial, Grant, GrantCategory, RecoveryClass};
use diskspace::history::{ActionKind, MoveKind};
use diskspace::model::{
    Candidate, Category, CheckResult, ConsequenceContract, Consequences, Context, PathPolicies,
    Preferences, Profile, Rule, ScanResult, ScannedEntry,
};

const HOUR: i64 = 3_600_000_000_000;
const DAY: i64 = 24 * HOUR;
const NOW: i64 = 20_000 * DAY;
const GIB: u64 = 1024 * 1024 * 1024;
const HOME: &str = "/home/test";

fn conf(x: f64) -> u32 {
    (x * 1_000_000.0).round() as u32
}

/// A percentage of the volume in millionths of it.
fn pct(x: f64) -> i64 {
    (x * 10_000.0) as i64
}

fn profile() -> Profile {
    Profile {
        domains: Vec::new(),
        paths: PathPolicies { never_touch: Vec::new(), never_suggest: Vec::new() },
        preferences: Preferences {
            airlock_retention_days: 7,
            min_candidate_bytes: 107_374_182,
            pressure_threshold_bytes: 20 * GIB,
            confirm_before_airlock: true,
            watch_autoreclaim: false,
        },
    }
}

fn quiet() -> Observations {
    Observations {
        stat_error: None,
        size_bytes: 0,
        open_file_lines: None,
        owner_running: false,
        recent_write: false,
        databases: DbScan::Clean,
        git_heads: Vec::new(),
    }
}

fn quiet_ctx() -> Context {
    Context { json: true, yes: true, no_color: true, verbose: false, quiet: true }
}

fn interactive_ctx() -> Context {
    Context { json: false, yes: false, no_color: true, verbose: false, quiet: true }
}

fn rule(id: &str, pattern: &str, recovery: &str) -> Rule {
    Rule {
        id: id.into(),
        category: "dev-artifact".into(),
        path_pattern: pattern.into(),
        domain: None,
        base_confidence: conf(0.9),
        reason: "test".into(),
        exclude_if_recent_access_days: None,
        exclude_if_recent_modified_days: None,
        consequences: Some(Consequences {
            recovery: recovery.into(),
            rebuild_seconds: Some(60),
            impact: "test".into(),
            recovery_cmd: None,
        }),
        reference_url: None,
    }
}

fn builtin_rules() -> Vec<Rule> {
    vec![
        rule("node-modules", "**/node_modules", "redownload"),
        rule("python-pycache", "**/__pycache__", "auto"),
        rule("rust-target", "**/target", "rebuild"),
        rule("python-venv", "**/.venv", "recreate"),
        rule("python-venv-plain", "**/venv", "recreate"),
    ]
}

fn make_target(proj: &str, leaf: &str, size: u64) -> ScannedEntry {
    ScannedEntry {
        path: format!("{HOME}/{proj}/{leaf}"),
        size_bytes: size,
        category: Category::DevArtifact,
        modified: Some(NOW - 120 * DAY),
        accessed: Some(NOW - 120 * DAY),
    }
}

fn candidates_of(entries: Vec<ScannedEntry>, prof: &Profile) -> Vec<Candidate> {
    let scan = ScanResult { scanned_at: NOW, entries, largest_dirs: Vec::new() };
    build_candidates_pub(&scan, &builtin_rules(), prof, HOME, NOW, &Vec::new())
}

fn plan_for(need: u64, entries: Vec<ScannedEntry>, prof: &Profile, live: &[&str]) -> Plan {
    let candidates = candidates_of(entries, prof);
    let seen: Vec<Observations> = candidates
        .iter()
        .map(|c| {
            let mut o = quiet();
            o.recent_write = live.contains(&c.path.as_str());
            o
        })
        .collect();
    build_plan(
        need,
        Mode::Airlock,
        prof,
        &builtin_rules(),
        HOME,
        &Vec::new(),
        &candidates,
        &seen,
        NOW,
    )
}

#[test]
fn parse_size_basic() {
    assert_eq!(parse_size("20G"), Some(20 * 1024 * 1024 * 1024));
    assert_eq!(parse_size("500M"), Some(500 * 1024 * 1024));
    assert_eq!(parse_size("100mb"), Some(100 * 1024 * 1024));
    assert_eq!(
        parse_size("1.5gb"),
        Some((1.5 * 1024.0 * 1024.0 * 1024.0) as u64)
    );
    assert_eq!(parse_size("1024"), Some(1024));
}

#[test]
fn sizes_read_as_doubles_do() {
    for text in ["0.1g", "3.3333333333333333333kb", "1e3m", "1e400", "-5", "inf", "nan", ".5k", "7.", "1e-400g"] {
        let (number, factor) = match text.strip_suffix("kb").or(text.strip_suffix('k')) {
            Some(n) => (n, 1024.0),
            None => match text.strip_suffix('m') {
                Some(n) => (n, 1024.0 * 1024.0),
                None => match text.strip_suffix('g') {
                    Some(n) => (n, 1024.0 * 1024.0 * 1024.0),
                    None => (text, 1.0),
                },
            },
        };
        let want = number.parse::<f64>().ok().map(|v| (v * factor) as u64);
        assert_eq!(parse_size(text), want, "{text}");
    }
    assert_eq!(parse_size(" 2 KB "), Some(2048));
    assert_eq!(parse_size("G"), None);
    assert_eq!(parse_size("five"), None);
    assert_eq!(parse_size(""), None);
    assert_eq!(parse_size("ｶ"), None);
}

#[test]
fn need_falls_back_to_the_threshold_and_a_gibibyte() {
    let prof = profile();
    assert_eq!(parse_need(Some("30G"), &prof), 30 * GIB);
    assert_eq!(parse_need(None, &prof), 21 * GIB);
    assert_eq!(parse_need(Some("lots"), &prof), 21 * GIB);
}

#[test]
fn mode_names_and_choice() {
    assert_eq!(Mode::Airlock.as_str(), "airlock");
    assert_eq!(Mode::Immediate.as_str(), "immediate");
    assert_eq!(Mode::from_str("immediate"), Mode::Immediate);
    assert_eq!(Mode::from_str("airlock"), Mode::Airlock);
    assert_eq!(Mode::from_str("else"), Mode::Airlock);
    assert_eq!(choose_mode(19 * GIB, 20 * GIB), Mode::Immediate);
    assert_eq!(choose_mode(20 * GIB, 20 * GIB), Mode::Airlock);
    assert!(preflight_warns(Mode::Immediate, conf(0.84)));
    assert!(!preflight_warns(Mode::Immediate, conf(0.85)));
    assert!(!preflight_warns(Mode::Airlock, conf(0.1)));
}

// ---- the acute phase -------------------------------------------------------

#[test]
fn acute_trigger_requires_both_low_pct_and_low_absolute() {
    let total = 1_000 * 1024 * 1024 * 1024u64;
    let min = resolve_min_free_pct(Some(pct(3.0)));
    let free_huge = 5 * 1024 * 1024 * 1024u64;
    assert!(
        !is_acute(free_huge, total, min),
        "5 GiB free on a 1 TB disk is not the ENOSPC danger zone"
    );
    let free_critical = 512 * 1024 * 1024u64;
    assert!(
        is_acute(free_critical, total, min),
        "<2 GiB free below the pct floor IS acute"
    );
    let small = 50 * 1024 * 1024 * 1024u64;
    assert!(is_acute(small / 100, small, min));
    assert!(!is_acute(total / 2, total, min));
    assert!(!is_acute(0, 0, min));
}

#[test]
fn acute_target_is_min_free_pct_of_volume() {
    let total = 100 * 1024 * 1024 * 1024u64;
    assert_eq!(acute_target_bytes(total, pct(3.0) as u64), 3 * 1024 * 1024 * 1024);
    assert_eq!(acute_target_bytes(total, pct(2.0) as u64), 2 * 1024 * 1024 * 1024);
}

#[test]
fn resolve_min_free_pct_flag_overrides_default_and_ignores_garbage() {
    assert_eq!(resolve_min_free_pct(None), DEFAULT_MIN_FREE);
    assert_eq!(DEFAULT_MIN_FREE, pct(3.0) as u64);
    assert_eq!(resolve_min_free_pct(Some(pct(5.0))), pct(5.0) as u64);
    assert_eq!(resolve_min_free_pct(Some(pct(0.0))), DEFAULT_MIN_FREE);
    assert_eq!(resolve_min_free_pct(Some(pct(-1.0))), DEFAULT_MIN_FREE);
    assert_eq!(resolve_min_free_pct(Some(pct(f64::NAN))), DEFAULT_MIN_FREE);
}

#[test]
fn acute_stabilize_gives_the_target_only_in_danger() {
    let total = 100 * GIB;
    assert_eq!(acute_stabilize(Some((GIB, total)), 30_000), Some(3 * GIB));
    assert_eq!(acute_stabilize(Some((50 * GIB, total)), 30_000), None);
    assert_eq!(acute_stabilize(None, 30_000), None);
}

#[test]
fn acute_safe_class_is_exactly_zero_data_loss() {
    for ok in ["auto", "redownload", "rebuild"] {
        assert!(is_acute_safe_class(ok), "{ok} is zero-data-loss");
    }
    for bad in ["recreate", "manual", "irreversible", "", "unknown"] {
        assert!(
            !is_acute_safe_class(bad),
            "{bad} must be EXCLUDED from the acute rush"
        );
    }
}

#[test]
fn acute_class_rank_orders_auto_redownload_rebuild() {
    assert!(acute_class_rank("auto") < acute_class_rank("redownload"));
    assert!(acute_class_rank("redownload") < acute_class_rank("rebuild"));
}

fn acute_candidate(leaf: &str, size: u64, recovery: &str) -> Candidate {
    Candidate {
        id: format!("acute-{leaf}"),
        rule_id: format!("rule-{leaf}"),
        path: format!("{HOME}/{leaf}"),
        size_bytes: size,
        category: Category::DevArtifact,
        confidence: conf(0.95),
        reason: "test".into(),
        domain: None,
        modified: Some(NOW - 90 * DAY),
        accessed: Some(NOW - 90 * DAY),
        consequences: Some(Consequences {
            recovery: recovery.into(),
            rebuild_seconds: Some(60),
            impact: "test".into(),
            recovery_cmd: None,
        }),
        consequence_contract: None,
        metrics: None,
        reference_url: None,
    }
}

struct AcuteEnd {
    deleted: Vec<String>,
    freed: u64,
    denied: Vec<Denial>,
}

/// Plays the acute phase to its end: `active` paths were written of late, the disk itself shows
/// no more than the removals should give.
fn play_acute(
    all: Vec<Candidate>,
    free: u64,
    target: u64,
    prof: &Profile,
    grant: Option<&Grant>,
    ctx: &Context,
    active: &[&str],
    consent: bool,
) -> AcuteEnd {
    let mut run: AcuteRun = acute_begin(&all, needs_consent(ctx, true, grant.is_some()));
    let mut denied = Vec::new();
    loop {
        let event = match run.next_action() {
            AcuteAction::AskConsent => AcuteEvent::Consent(consent),
            AcuteAction::ReadFree => AcuteEvent::Free(None),
            AcuteAction::Check(i) => {
                let mut seen = quiet();
                seen.recent_write = active.contains(&run.candidates[i].path.as_str());
                let result = pressure_test(
                    &run.candidates[i].id,
                    &run.candidates[i].path,
                    None,
                    prof,
                    &Vec::new(),
                    HOME,
                    &Vec::new(),
                    &seen,
                    NOW,
                );
                AcuteEvent::Checked(result.safe)
            }
            AcuteAction::Remove(_) => AcuteEvent::Removed(true),
            AcuteAction::Finish => break,
        };
        if let Some(d) = acute_reclaim(&mut run, event, free, target, grant, HOME) {
            denied.push(d);
        }
    }
    AcuteEnd {
        deleted: run.deleted.iter().map(|&i| run.candidates[i].path.clone()).collect(),
        freed: run.freed_total,
        denied,
    }
}

#[test]
fn acute_reclaim_selects_safest_zero_data_loss_and_stops_at_target() {
    let gib = 1024 * 1024 * 1024u64;
    let mut prof = profile();
    prof.paths.never_touch.push(format!("{HOME}/blocked_nm"));
    let all = vec![
        acute_candidate("target", 4 * gib, "rebuild"),
        acute_candidate("node_modules", 4 * gib, "redownload"),
        acute_candidate("pycache", 4 * gib, "auto"),
        acute_candidate("venv", 9 * gib, "recreate"),
        acute_candidate("stale", 9 * gib, "manual"),
        acute_candidate("screenshots", 9 * gib, "irreversible"),
        acute_candidate("blocked_nm", 9 * gib, "redownload"),
        acute_candidate("active_target", 9 * gib, "rebuild"),
    ];
    let active = format!("{HOME}/active_target");
    let end = play_acute(all, 0, 6 * gib, &prof, None, &quiet_ctx(), &[active.as_str()], true);
    assert_eq!(
        end.deleted.len(),
        2,
        "exactly two deletes reach the 6 GiB target (smallest set), got {:?}",
        end.deleted
    );
    assert_eq!(end.deleted[0], format!("{HOME}/pycache"), "the SAFEST class (auto) is deleted first");
    assert_eq!(end.deleted[1], format!("{HOME}/node_modules"), "redownload is deleted second");
    assert_eq!(end.freed, 8 * gib);
}

#[test]
fn acute_end_to_end_from_scan_cache_reclaims_only_safe_regenerables() {
    let gib = 1024 * 1024 * 1024u64;
    let entries = vec![
        make_target("proj_py", "__pycache__", 4 * gib),
        make_target("proj_nm", "node_modules", 4 * gib),
        make_target("proj_rs", "target", 4 * gib),
        make_target("proj_venv", ".venv", 9 * gib),
        make_target("proj_venv2", "venv", 9 * gib),
        make_target("proj_blocked", "node_modules", 9 * gib),
        make_target("proj_active", "target", 9 * gib),
    ];
    let mut prof = profile();
    prof.paths.never_touch.push(entries[5].path.clone());
    let (auto, redownload) = (entries[0].path.clone(), entries[1].path.clone());
    let active = entries[6].path.clone();
    let candidates = candidates_of(entries, &prof);
    assert!(!candidates.is_empty(), "cache yields candidates");
    let end = play_acute(candidates, 0, 6 * gib, &prof, None, &quiet_ctx(), &[active.as_str()], true);
    assert_eq!(
        end.deleted.len(),
        2,
        "smallest safe set: exactly two reclaims reach the 6 GiB target, got {:?}",
        end.deleted
    );
    assert_eq!(end.deleted[0], auto, "auto (safest) reclaimed first");
    assert_eq!(end.deleted[1], redownload, "redownload reclaimed second");
    assert_eq!(end.freed, 8 * gib);
}

#[test]
fn acute_receipts_name_the_class() {
    let c = acute_candidate("pycache", 7, "auto");
    let r = acute_receipt(&c, 3, NOW);
    assert_eq!(r.command, ActionKind::Doctor);
    assert_eq!((r.df_before, r.df_after, r.actually_freed), (Some(3), None, None));
    assert!(!r.reversible && r.undo_cmd.is_none());
    assert_eq!(
        r.context,
        [
            ("phase".to_string(), "acute".to_string()),
            ("recovery_class".to_string(), "auto".to_string())
        ]
    );
}

#[test]
fn acute_never_touch_is_a_hard_gate() {
    let c = acute_candidate("node_modules", 4 * GIB, "redownload");
    let mut prof = profile();
    prof.paths.never_touch.push(c.path.clone());
    let end = play_acute(vec![c], 0, 6 * GIB, &prof, None, &quiet_ctx(), &[], true);
    assert!(end.deleted.is_empty(), "never_touch path is not deleted");
}

#[test]
fn acute_active_target_is_blocked_by_liveness() {
    let c = acute_candidate("target", 4 * GIB, "rebuild");
    let path = c.path.clone();
    let end = play_acute(vec![c], 0, 6 * GIB, &profile(), None, &quiet_ctx(), &[path.as_str()], true);
    assert!(
        end.deleted.is_empty(),
        "an active (liveness-failing) target is not deleted"
    );
}

#[test]
fn acute_interactive_without_grant_requires_consent() {
    let c = acute_candidate("node_modules", 4 * GIB, "redownload");
    let total = consent_total(&vec![c.duplicate()]);
    assert_eq!(total, 4 * GIB as u128);
    let end = play_acute(vec![c], 0, 6 * GIB, &profile(), None, &interactive_ctx(), &[], false);
    assert!(
        end.deleted.is_empty(),
        "interactive + no grant must NOT delete without consent"
    );
    assert_eq!(end.freed, 0, "nothing freed when aborted");
}

#[test]
fn acute_grant_speaks_for_an_absent_person() {
    let grant = grant(RecoveryClass::Redownload, 5 * GIB, 0.8, None);
    assert!(!needs_consent(&interactive_ctx(), true, true));
    assert!(needs_consent(&interactive_ctx(), false, true));
    let all = vec![
        acute_candidate("node_modules", 4 * GIB, "redownload"),
        acute_candidate("pycache", 2 * GIB, "auto"),
        acute_candidate("target", 1 * GIB, "rebuild"),
    ];
    let end = play_acute(all, 0, 60 * GIB, &profile(), Some(&grant), &interactive_ctx(), &[], false);
    assert_eq!(end.deleted, [format!("{HOME}/pycache")]);
    assert_eq!(end.denied, [Denial::Budget, Denial::Ceiling]);
}

#[test]
fn acute_loop_trusts_the_lower_reading() {
    let all = vec![
        acute_candidate("venv", 9 * GIB, "recreate"),
        acute_candidate("node_modules", 4 * GIB, "redownload"),
        acute_candidate("pycache", 4 * GIB, "auto"),
    ];
    let mut run = acute_begin(&all, false);
    let order: Vec<&str> = run.candidates.iter().map(|c| c.id.as_str()).collect();
    assert_eq!(order, ["acute-pycache", "acute-node_modules"], "the safest first, and nothing that loses data");
    // The disk shows far more than the removals explain: it is not believed.
    acute_reclaim(&mut run, AcuteEvent::Free(Some(50 * GIB)), 0, 3 * GIB, None, HOME);
    assert_eq!(run.next_action(), AcuteAction::Check(0));
    acute_reclaim(&mut run, AcuteEvent::Checked(true), 0, 3 * GIB, None, HOME);
    acute_reclaim(&mut run, AcuteEvent::Removed(true), 0, 3 * GIB, None, HOME);
    // The removal should have given four gibibytes, and the disk shows none.
    acute_reclaim(&mut run, AcuteEvent::Free(Some(0)), 0, 3 * GIB, None, HOME);
    assert_eq!(run.next_action(), AcuteAction::Check(1));
    acute_reclaim(&mut run, AcuteEvent::Checked(false), 0, 3 * GIB, None, HOME);
    assert_eq!(run.next_action(), AcuteAction::Finish);
    assert_eq!(run.deleted, [0usize]);
}

#[test]
fn sizes_ignore_case_blanks_and_the_long_form() {
    for s in ["1.5g", " 20M ", "7kb", "x", "", "1e3", "infG"] {
        assert_eq!(parse_size(&s.to_ascii_uppercase()), parse_size(s));
        assert_eq!(parse_size(&s.to_ascii_lowercase()), parse_size(s));
        assert_eq!(parse_size(&format!(" \t{s}\n")), parse_size(s));
    }
    for n in ["3", " 0.5", "-1", "nan", "y"] {
        for unit in ["g", "m", "k"] {
            assert_eq!(parse_size(&format!("{n}{unit}b")), parse_size(&format!("{n}{unit}")));
        }
    }
    assert_eq!(parse_size("0.5 KB"), Some(512));
    assert_eq!(parse_size("b"), None);
    assert_eq!(parse_size("gg"), None);
}

#[test]
fn stages_after_the_acute_phase() {
    assert_eq!(
        next_stage(Some(AcuteResult { free_after: GIB, target_reached: false }), 0, 5 * GIB, true, 20 * GIB),
        Stage::Unmet { free: GIB, shortfall: 4 * GIB }
    );
    assert_eq!(
        next_stage(Some(AcuteResult { free_after: 9 * GIB, target_reached: true }), 0, 5 * GIB, false, 20 * GIB),
        Stage::Triage { free: 9 * GIB }
    );
    assert_eq!(
        next_stage(None, 9 * GIB, 5 * GIB, true, 20 * GIB),
        Stage::Sufficient { free: 9 * GIB }
    );
    assert_eq!(
        next_stage(None, 3 * GIB, 5 * GIB, true, 2 * GIB),
        Stage::Recover { free: 3 * GIB, bytes: 2 * GIB, mode: Mode::Airlock }
    );
    let end = acute_result(GIB, None, 2 * GIB);
    assert_eq!(end, AcuteResult { free_after: GIB, target_reached: false });
    let end = acute_result(GIB, Some(2 * GIB), 2 * GIB);
    assert!(end.target_reached);
}

#[test]
fn triage_handoff_json_emits_next_commands() {
    let next = triage_commands();
    assert!(next.iter().any(|c| c == "diskspace detect"));
    assert!(next.iter().any(|c| c == "diskspace doctor --need <size>"));
    assert!(next.iter().any(|c| c == "diskspace classify"));
    assert_eq!(unmet_commands()[1], "diskspace survey");
}

#[test]
fn scan_freshness_and_grant_refusal() {
    assert!(scan_is_fresh(NOW, NOW - 3600 * 1_000_000_000 + 1));
    assert!(!scan_is_fresh(NOW, NOW - 3600 * 1_000_000_000));
    assert!(refuses_without_grant(&quiet_ctx(), true, false));
    assert!(!refuses_without_grant(&quiet_ctx(), true, true));
    assert!(!refuses_without_grant(&quiet_ctx(), false, false));
    assert!(!refuses_without_grant(&interactive_ctx(), true, false));
}

// ---- plans -----------------------------------------------------------------

#[test]
fn build_plan_only_includes_pressure_passing_and_stops_at_need() {
    let five_gb = 5 * 1024 * 1024 * 1024u64;
    let entries = vec![
        make_target("proj_nm", "node_modules", five_gb),
        make_target("proj_py", "__pycache__", five_gb),
        make_target("proj_rs", "target", five_gb),
        make_target("proj_blocked", ".venv", five_gb),
    ];
    let mut prof = profile();
    prof.paths.never_touch.push("~/proj_blocked/.venv".into());
    let need = 6 * 1024 * 1024 * 1024u64;
    let plan = plan_for(need, entries, &prof, &[]);
    for s in &plan.steps {
        assert!(s.pressure.safe, "build_plan included a non-safe step");
        assert_ne!(s.candidate_id, "", "step carries the id it cleared");
    }
    assert!(
        !plan.steps.iter().any(|s| s.path.starts_with(&format!("{HOME}/proj_blocked"))),
        "never_touch path must be excluded from the plan"
    );
    assert!(plan.projected_freed >= need as u128, "plan reaches the requested need");
    assert_eq!(
        plan.steps.len(),
        2,
        "greedy selection stops once need is met (2 × 5 GB ≥ 6 GB)"
    );
}

#[test]
fn maximal_grant_never_reaches_a_never_touch_path() {
    let five_gb = 5 * 1024 * 1024 * 1024u64;
    let entries = vec![
        make_target("proj_nm", "node_modules", five_gb),
        make_target("proj_blocked", ".venv", five_gb),
    ];
    let mut prof = profile();
    prof.paths.never_touch.push("~/proj_blocked/.venv".into());
    let need = 4 * 1024 * 1024 * 1024u64;
    let plan = plan_for(need, entries, &prof, &[]);
    let maximal = grant(RecoveryClass::Irreversible, u64::MAX, 0.0, None);
    let (run, _) = play_plan(&plan, Some(&maximal), 0, 100);
    for item in &run.items {
        if let Item::Acted { step, .. } = item {
            assert!(!plan.steps[*step].path.starts_with(&format!("{HOME}/proj_blocked")));
        }
    }
    assert!(
        !plan.steps.iter().any(|s| s.path.starts_with(&format!("{HOME}/proj_blocked"))),
        "never_touch path must be filtered by the hard gate, before grant logic"
    );
    for s in &plan.steps {
        assert!(s.pressure.safe);
    }
}

#[test]
fn maximal_grant_plan_is_empty_when_only_target_is_blocked() {
    let five_gb = 5 * 1024 * 1024 * 1024u64;
    let mut prof = profile();
    prof.paths.never_touch.push("~/proj_blocked/node_modules".into());
    let need = 1024 * 1024 * 1024u64;
    let plan = plan_for(need, vec![make_target("proj_blocked", "node_modules", five_gb)], &prof, &[]);
    assert!(
        plan.steps.is_empty(),
        "with the only target blocked by never_touch, the plan is empty even under a maximal grant"
    );
}

#[test]
fn pressure_test_blocks_live_path_regardless_of_maximal_grant() {
    let live = format!("{HOME}/proj_live/node_modules");
    let five_gb = 5 * 1024 * 1024 * 1024u64;
    let need = 1024 * 1024 * 1024u64;
    let plan = plan_for(
        need,
        vec![make_target("proj_live", "node_modules", five_gb)],
        &profile(),
        &[live.as_str()],
    );
    assert!(
        !plan.steps.iter().any(|s| s.path == live),
        "a live (recently-written) path must be blocked by the pressure-test, before any grant"
    );
}

#[test]
fn plan_takes_the_surest_and_then_the_largest() {
    let entries = vec![
        make_target("a", "node_modules", 3 * GIB),
        make_target("b", "target", 9 * GIB),
        make_target("c", "__pycache__", 5 * GIB),
    ];
    let plan = plan_for(100 * GIB, entries, &profile(), &[]);
    let sizes: Vec<u64> = plan.steps.iter().map(|s| s.size_bytes).collect();
    assert_eq!(sizes, [9 * GIB, 5 * GIB, 3 * GIB]);
    assert_eq!(plan.projected_freed, 17 * GIB as u128);
    assert_eq!(plan.need_bytes, 100 * GIB);
}

// ---- execution -------------------------------------------------------------

fn grant(ceiling: RecoveryClass, max_bytes: u64, min_conf: f64, scope: Option<&str>) -> Grant {
    Grant {
        category: GrantCategory::AgentAutonomy,
        recovery_class_ceiling: ceiling,
        max_bytes,
        min_confidence: conf(min_conf),
        path_scope: scope.map(|s| s.to_string()),
        expires_at: NOW + HOUR,
    }
}

fn step_target(leaf: &str, size: u64, confidence: f64, recovery: &str, mode: &str) -> PlanStep {
    let id = format!("manual-{leaf}");
    PlanStep {
        candidate_id: id.clone(),
        rule_id: "manual".into(),
        path: format!("{HOME}/proj/{leaf}"),
        size_bytes: size,
        confidence: conf(confidence),
        mode: mode.into(),
        reversible: mode == "airlock",
        pressure: CheckResult::gate(id, true, conf(1.0), vec![]),
        consequence_contract: Some(ConsequenceContract {
            recovery_class: recovery.into(),
            recovery_cost_seconds: None,
            impact: "test".into(),
            recovery_cmd: None,
            reference_url: None,
        }),
    }
}

fn plan_of(steps: Vec<PlanStep>) -> Plan {
    Plan { plan_hash: String::new(), need_bytes: 100, steps, projected_freed: 0, created_at: NOW }
}

/// Plays a plan to its end on a disk that never shows more space.
fn play_plan(plan: &Plan, grant: Option<&Grant>, df: u64, need: u64) -> (Execution, ExecuteOutcome) {
    let mut run = execute_begin(plan, grant, HOME, df, df + need);
    loop {
        let event = match run.next_action() {
            ExecuteAction::Act(i) => {
                ExecuteEvent::Done(Some(format!("diskspace restore {}", plan.steps[i].candidate_id)))
            }
            ExecuteAction::ReadFree => ExecuteEvent::Free(Some(df)),
            ExecuteAction::Finish => break,
        };
        execute_plan(&mut run, event, plan, grant, HOME, df, df + need);
    }
    let outcome = execute_outcome(&run, df, Some(df));
    (run, outcome)
}

fn acted(run: &Execution) -> Vec<usize> {
    run.items
        .iter()
        .filter_map(|i| match i {
            Item::Acted { step, .. } => Some(*step),
            Item::Denied { .. } => None,
        })
        .collect()
}

fn denied(run: &Execution) -> Vec<(usize, Denial)> {
    run.items
        .iter()
        .filter_map(|i| match i {
            Item::Denied { step, reason } => Some((*step, *reason)),
            Item::Acted { .. } => None,
        })
        .collect()
}

#[test]
fn grant_acts_only_on_in_bound_steps_and_audits_the_rest() {
    let grant = grant(RecoveryClass::Rebuild, 10, 0.80, None);
    let plan = plan_of(vec![
        step_target("ok_a", 4, 0.90, "rebuild", "airlock"),
        step_target("ok_b", 4, 0.85, "redownload", "airlock"),
        step_target("bad_class", 4, 0.90, "recreate", "airlock"),
        step_target("bad_conf", 4, 0.50, "rebuild", "airlock"),
        step_target("bad_budget", 9, 0.90, "rebuild", "airlock"),
    ]);
    let (run, outcome) = play_plan(&plan, Some(&grant), 1_000, 100);
    assert_eq!(acted(&run), [0, 1], "in-bound steps must be airlocked away");
    assert_eq!(outcome.freed_bytes, 8, "only the 4+4 in-bound bytes staged");
    assert_eq!(run.items.len(), 5, "one audit line per consultation");
    let denials = denied(&run);
    assert_eq!(denials.len(), 3, "three out-of-bound denies");
    let reasons: Vec<String> = denials.iter().map(|(_, d)| d.reason()).collect();
    assert!(reasons.iter().any(|r| r.contains("ceiling")));
    assert!(reasons.iter().any(|r| r.contains("confidence")));
    assert!(reasons.iter().any(|r| r.contains("budget")));
    assert_eq!(denials, [(2, Denial::Ceiling), (3, Denial::Confidence), (4, Denial::Budget)]);
}

#[test]
fn grant_path_scope_filters_out_of_scope_steps() {
    let grant = grant(RecoveryClass::Rebuild, 1_000, 0.80, Some("~/proj/in_scope*"));
    let plan = plan_of(vec![
        step_target("in_scope", 4, 0.90, "rebuild", "airlock"),
        step_target("out_scope", 4, 0.90, "rebuild", "airlock"),
    ]);
    let (run, _) = play_plan(&plan, Some(&grant), 0, 100);
    assert_eq!(acted(&run), [0], "in-scope step acted on (moved away)");
    let denials = denied(&run);
    assert_eq!(denials.len(), 1);
    assert!(denials[0].1.reason().contains("scope"));
}

#[test]
fn without_actuation_grant_arg_is_ignored_and_step_acts() {
    let mut step = step_target("node_modules", 4096, 0.10, "irreversible", "airlock");
    step.consequence_contract = None;
    let plan = plan_of(vec![step]);
    let (run, outcome) = play_plan(&plan, None, 0, 4096);
    assert_eq!(acted(&run), [0], "without actuation, the step acts regardless of any grant bound");
    assert_eq!(outcome.freed_bytes, 4096);
}

#[test]
fn execute_plan_airlocks_chosen_set_in_tempdir() {
    let mut step = step_target("node_modules", 4096, 0.9, "auto", "airlock");
    step.candidate_id = "manual-nm".into();
    step.consequence_contract = None;
    let plan = plan_of(vec![step]);
    let (run, outcome) = play_plan(&plan, None, 7, 4096);
    assert_eq!(acted(&run), [0]);
    assert_eq!(outcome.freed_bytes, 4096, "staged size accounted for");
    assert_eq!(outcome.actually_freed, 0);
    assert_eq!(outcome.staged(), 4096);
    let receipt = step_receipt(
        &plan.steps[0],
        7,
        &Some("diskspace restore x".to_string()),
        Some(MoveKind::Rename),
        NOW,
    );
    assert_eq!(receipt.rule_id.as_deref(), Some("manual"));
    assert_eq!(receipt.rule_confidence, Some(conf(0.9)));
    assert!(receipt.reversible, "airlock receipts are reversible");
    assert_eq!(receipt.command, ActionKind::Doctor);
    assert_eq!(receipt.path, plan.steps[0].path);
    assert_eq!(receipt.context, [("move_kind".to_string(), "rename".to_string())]);
}

#[test]
fn immediate_steps_stop_once_the_disk_shows_enough() {
    let plan = plan_of(vec![
        step_target("a", 50, 0.9, "auto", "immediate"),
        step_target("b", 50, 0.9, "auto", "immediate"),
    ]);
    let mut run = execute_begin(&plan, None, HOME, 10, 60);
    assert_eq!(run.next_action(), ExecuteAction::Act(0));
    execute_plan(&mut run, ExecuteEvent::Failed, &plan, None, HOME, 10, 60);
    assert_eq!(run.next_action(), ExecuteAction::ReadFree);
    execute_plan(&mut run, ExecuteEvent::Free(None), &plan, None, HOME, 10, 60);
    assert_eq!(run.next_action(), ExecuteAction::Act(1));
    execute_plan(&mut run, ExecuteEvent::Done(None), &plan, None, HOME, 10, 60);
    execute_plan(&mut run, ExecuteEvent::Free(Some(60)), &plan, None, HOME, 10, 60);
    assert_eq!(run.next_action(), ExecuteAction::Finish);
    assert_eq!(acted(&run), [1]);
    let outcome = execute_outcome(&run, 10, Some(60));
    assert_eq!(outcome.actually_freed, 50);
    assert_eq!(outcome.staged(), 0);
}

#[test]
fn contract_turns_back_into_consequences() {
    let k = ConsequenceContract {
        recovery_class: "rebuild".into(),
        recovery_cost_seconds: Some(90),
        impact: "slow build".into(),
        recovery_cmd: Some("make".into()),
        reference_url: None,
    };
    let c = consequences_from_contract(&k);
    assert_eq!(c.recovery, "rebuild");
    assert_eq!(c.rebuild_seconds, Some(90));
    assert_eq!(c.impact, "slow build");
    assert_eq!(c.recovery_cmd.as_deref(), Some("make"));
}

#[test]
fn still_in_danger_means_no_scan() {
    for need_given in [false, true] {
        let stage = next_stage(
            Some(AcuteResult { free_after: 9 * GIB, target_reached: false }),
            9 * GIB,
            50 * GIB,
            need_given,
            20 * GIB,
        );
        assert_eq!(stage, Stage::Unmet { free: 9 * GIB, shortfall: 41 * GIB });
    }
    for has_grant in [false, true] {
        for ctx in [quiet_ctx(), interactive_ctx()] {
            assert!(
                refuses_without_grant(&ctx, true, has_grant)
                    || needs_consent(&ctx, true, has_grant)
                    || has_grant
            );
        }
    }
}
