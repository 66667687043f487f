use diskspace::check::{DbScan, Observations};
use diskspace::detect::build_candidates_pub;
use diskspace::doctor::{build_plan, parse_size, Mode};
use diskspace::execute::{
    execute_begin, execute_outcome, execute_plan, step_receipt, ExecuteAction, ExecuteEvent,
};
use diskspace::guard::{
    exec_argv, free_space, needed_bytes, recovery_for, run_outcome, spawn_failure,
    stderr_signals_enospc, GuardEvent, GuardPhase, GuardRun, Recovery, RunOutcome, DEFAULT_NEED,
    ENOSPC_EXIT_CODE,
};
use diskspace::model::{
    Category, Consequences, PathPolicies, Preferences, Profile, Rule, ScanResult, ScannedEntry,
};

const GIB: u64 = 1024 * 1024 * 1024;

fn argv() -> Vec<String> {
    vec!["ok.sh".to_string()]
}

fn ran(code: Option<i32>, enospc: bool) -> GuardEvent {
    GuardEvent::Ran(RunOutcome { exit_code: code, enospc })
}

#[test]
fn normal_exit_zero_no_cleanup_no_reexec() {
    let outcome = run_outcome(Some(0), "");
    assert_eq!(outcome.exit_code, Some(0), "command exited 0");
    assert!(!outcome.enospc, "exit-0 must not look like ENOSPC");
    let mut run = GuardRun::begin(&argv());
    run.step(GuardEvent::Ran(outcome));
    assert_eq!(run.phase, GuardPhase::Done);
    let trace = run.trace("ok.sh");
    assert!(!trace.enospc_detected);
    assert!(!trace.re_execed);
    assert!(trace.success);
    assert_eq!(trace.freed_bytes, 0);
    assert_eq!(run.exit_code(), 0);
}

#[test]
fn exit_28_is_detected_as_enospc_via_argv() {
    let outcome = run_outcome(Some(28), "");
    assert_eq!(outcome.exit_code, Some(28));
    assert_eq!(ENOSPC_EXIT_CODE, 28);
    assert!(outcome.enospc, "exit code 28 must be detected as ENOSPC (errno 28)");
}

#[test]
fn stderr_marker_is_detected_as_enospc_via_argv() {
    let outcome = run_outcome(Some(1), "write error: No space left on device\n");
    assert_eq!(outcome.exit_code, Some(1));
    assert!(
        outcome.enospc,
        "the 'No space left on device' stderr marker must flag ENOSPC"
    );
    assert!(stderr_signals_enospc("npm ERR! ENOSPC"));
    assert!(stderr_signals_enospc("OSError: [Errno 28]"));
    assert!(stderr_signals_enospc("É: No Space Left On Device"));
    assert!(!stderr_signals_enospc("no space left"));
}

#[test]
fn enospc_branch_invokes_doctor_and_frees_via_shared_path() {
    let now = 20_000 * 86_400_000_000_000i64;
    let home = "/home/test";
    let target = "/home/test/proj_nm/node_modules";
    let five_gb = 5 * 1024 * 1024 * 1024u64;
    let prof = Profile {
        domains: Vec::new(),
        paths: PathPolicies { never_touch: Vec::new(), never_suggest: Vec::new() },
        preferences: Preferences {
            airlock_retention_days: 7,
            min_candidate_bytes: 100_000_000,
            pressure_threshold_bytes: 0,
            confirm_before_airlock: true,
            watch_autoreclaim: false,
        },
    };
    let rules = vec![Rule {
        id: "node-modules".into(),
        category: "dev-artifact".into(),
        path_pattern: "**/node_modules".into(),
        domain: None,
        base_confidence: 900_000,
        reason: "deps".into(),
        exclude_if_recent_access_days: None,
        exclude_if_recent_modified_days: None,
        consequences: Some(Consequences {
            recovery: "redownload".into(),
            rebuild_seconds: None,
            impact: "x".into(),
            recovery_cmd: None,
        }),
        reference_url: None,
    }];
    let scan = ScanResult {
        scanned_at: now,
        entries: vec![ScannedEntry {
            path: target.into(),
            size_bytes: five_gb,
            category: Category::DevArtifact,
            modified: Some(0),
            accessed: Some(0),
        }],
        largest_dirs: Vec::new(),
    };
    let candidates = build_candidates_pub(&scan, &rules, &prof, home, now, &Vec::new());
    let seen = vec![Observations {
        stat_error: None,
        size_bytes: 0,
        open_file_lines: None,
        owner_running: false,
        recent_write: false,
        databases: DbScan::Clean,
        git_heads: Vec::new(),
    }];
    let need = 1024 * 1024 * 1024u64;
    let plan = build_plan(need, Mode::Airlock, &prof, &rules, home, &Vec::new(), &candidates, &seen, now);
    assert!(
        !plan.steps.is_empty(),
        "build_plan (the shared doctor selection) must select the seeded target"
    );
    assert!(
        plan.steps.iter().any(|s| s.path == target),
        "the seeded node_modules target must be in the plan"
    );
    let df = 7;
    let mut run = execute_begin(&plan, None, home, df, df + need);
    assert_eq!(run.next_action(), ExecuteAction::Act(0));
    execute_plan(&mut run, ExecuteEvent::Done(None), &plan, None, home, df, df + need);
    let outcome = execute_outcome(&run, df, None);
    assert_eq!(
        outcome.freed_bytes, five_gb as u128,
        "staged size recorded (the plan step's reported size)"
    );
    assert_eq!(step_receipt(&plan.steps[0], df, &None, None, now).path, target);
}

#[test]
fn nonexistent_binary_spawn_is_an_error_not_a_silent_exit() {
    let err = spawn_failure("this-binary-does-not-exist-xyzzy-42", false, "not found").unwrap_err();
    assert!(
        err.contains("this-binary-does-not-exist-xyzzy-42"),
        "spawn failure surfaces the program name, got: {err}"
    );
    let full = spawn_failure("x", true, "storage full").unwrap();
    assert_eq!(full, RunOutcome { exit_code: None, enospc: true });
}

#[test]
fn error_trace_is_parseable_and_marks_failure() {
    let mut run = GuardRun::begin(&argv());
    run.step(GuardEvent::Failed("failed to spawn 'missingbin': not found".into()));
    let trace = run.trace("missingbin --flag");
    assert!(trace.error.is_some(), "error field is present");
    assert!(!trace.success);
    assert_eq!(trace.first_exit, None);
    assert!(!trace.re_execed);
    assert_eq!(run.exit_code(), 1);
}

#[test]
fn normal_trace_omits_error_field() {
    let mut run = GuardRun::begin(&argv());
    run.step(ran(Some(0), false));
    let trace = run.trace("ok");
    assert!(
        trace.error.is_none(),
        "the normal trace must NOT carry an error field"
    );
    assert_eq!(trace.cmd, "ok");
}

#[test]
fn make_target_helper_is_usable() {
    assert_eq!(Mode::Airlock.as_str(), "airlock");
    assert_eq!(parse_size(DEFAULT_NEED), Some(5 * GIB));
}

#[test]
fn command_is_run_again_once_after_space_came_free() {
    let mut run = GuardRun::begin(&argv());
    run.step(ran(Some(28), true));
    assert_eq!(run.phase, GuardPhase::Recovery);
    run.step(GuardEvent::Freed(10));
    assert_eq!(run.phase, GuardPhase::SecondRun);
    run.step(ran(Some(28), true));
    assert_eq!(run.phase, GuardPhase::Done);
    run.step(ran(Some(0), false));
    let trace = run.trace("x");
    assert!(trace.re_execed && trace.enospc_detected && !trace.success);
    assert_eq!((trace.first_exit, trace.second_exit), (Some(28), Some(28)));
    assert_eq!(run.exit_code(), 28);
}

#[test]
fn nothing_freed_means_no_second_run() {
    let mut run = GuardRun::begin(&argv());
    run.step(ran(Some(1), true));
    run.step(GuardEvent::Freed(0));
    assert_eq!(run.phase, GuardPhase::Done);
    assert_eq!(run.exit_code(), 1);
    assert!(run.trace("x").enospc_detected);
    let mut run = GuardRun::begin(&argv());
    run.step(ran(None, true));
    run.step(GuardEvent::Failed("no profile".into()));
    assert_eq!(run.exit_code(), 1);
    assert!(run.trace("x").enospc_detected);
    let mut run = GuardRun::begin(&argv());
    run.step(ran(Some(0), true));
    run.step(GuardEvent::Freed(3));
    run.step(GuardEvent::Failed("gone".into()));
    assert!(!run.success());
    assert_eq!(run.exit_code(), 1);
}

#[test]
fn empty_command_line_runs_nothing() {
    let run = GuardRun::begin(&Vec::new());
    assert_eq!(run.phase, GuardPhase::Done);
    assert_eq!(run.exit_code(), 1);
    assert!(!run.success());
}

#[test]
fn command_lines_are_split_by_shell_quoting() {
    assert_eq!(exec_argv("cargo build --release").unwrap(), ["cargo", "build", "--release"]);
    assert_eq!(exec_argv("echo 'a b' \"c \\\" d\" e\\ f").unwrap(), ["echo", "a b", "c \" d", "e f"]);
    assert_eq!(exec_argv("  ").unwrap(), Vec::<String>::new());
    assert_eq!(exec_argv("\ta  b\nc ").unwrap(), ["a", "b", "c"]);
    assert_eq!(exec_argv("make # all").unwrap(), ["make"]);
    assert_eq!(
        exec_argv("echo 'a").unwrap_err(),
        "could not parse --exec 'echo 'a': missing closing quote"
    );
}

#[test]
fn recovery_asks_for_the_difference() {
    assert_eq!(needed_bytes(None), 5 * GIB);
    assert_eq!(needed_bytes(Some("2g")), 2 * GIB);
    assert_eq!(needed_bytes(Some("??")), 0);
    assert_eq!(
        recovery_for(5 * GIB, Some(GIB), 2 * GIB),
        Some(Recovery {
            df_before: GIB,
            need_bytes: 5 * GIB,
            to_recover: 4 * GIB,
            mode: Mode::Immediate,
        })
    );
    assert_eq!(recovery_for(GIB, Some(GIB), 0), None);
    assert_eq!(free_space(None, None, 0).unwrap().to_recover, 5 * GIB);
    assert_eq!(free_space(Some("bad"), None, 0), None);
}
