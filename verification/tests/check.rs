use diskspace::check::{
    any_recent, attach_candidate, check_candidate, data_safety_check, exit_code, find_candidate,
    git_head_files, is_regenerable_vouched, liveness_check, policy_check, pressure_test,
    recency_check, render_check_result_pub, restat_check, rule_names_exact_path, CheckRow, DbScan,
    Observations,
};
use diskspace::explain::{
    expand_target, find_rule, format_recovery, recommended_command, recommended_command_for,
    rule_hits, to_percent,
};
use diskspace::model::{
    Candidate, Category, CheckResult, CheckStep, Consequences, PathPolicies, Preferences, Profile,
    Rule, IMMEDIATE_THRESHOLD,
};

const DAY: i64 = 86_400_000_000_000;
const NOW: i64 = 20_000 * DAY;
const HOME: &str = "/home/test";

fn profile() -> Profile {
    Profile {
        domains: Vec::new(),
        paths: PathPolicies { never_touch: Vec::new(), never_suggest: Vec::new() },
        preferences: Preferences {
            airlock_retention_days: 7,
            min_candidate_bytes: 0,
            pressure_threshold_bytes: 0,
            confirm_before_airlock: true,
            watch_autoreclaim: false,
        },
    }
}

fn rule(id: &str, pattern: &str, recovery: Option<&str>, conf: u32) -> Rule {
    Rule {
        id: id.into(),
        category: "dev-artifact".into(),
        path_pattern: pattern.into(),
        domain: None,
        base_confidence: conf,
        reason: "test".into(),
        exclude_if_recent_access_days: None,
        exclude_if_recent_modified_days: None,
        consequences: recovery.map(|r| Consequences {
            recovery: r.into(),
            rebuild_seconds: None,
            impact: "test".into(),
            recovery_cmd: None,
        }),
        reference_url: None,
    }
}

fn builtin_rules() -> Vec<Rule> {
    vec![
        rule("node-modules", "**/node_modules", Some("redownload"), 900_000),
        rule("stale-projects", "**/stale/*", Some("manual"), 500_000),
        rule("screenpipe-db", "~/.screenpipe/db.sqlite", Some("irreversible"), 600_000),
    ]
}

fn secret_stores() -> Vec<String> {
    vec!["~/.ssh".to_string(), "~/.gnupg".to_string()]
}

fn quiet() -> Observations {
    Observations {
        stat_error: None,
        size_bytes: 0,
        open_file_lines: Some(0),
        owner_running: false,
        recent_write: false,
        databases: DbScan::Clean,
        git_heads: Vec::new(),
    }
}

fn safety(path: &str, databases: &DbScan) -> CheckStep {
    let rules = builtin_rules();
    let hits = rule_hits(&rules, path, HOME);
    data_safety_check(
        path,
        is_regenerable_vouched(&rules, &hits),
        databases,
        rule_names_exact_path(path, &rules, HOME),
    )
}

fn test_path(path: &str, prof: &Profile, seen: &Observations) -> CheckResult {
    pressure_test("t", path, None, prof, &builtin_rules(), HOME, &secret_stores(), seen, NOW)
}

#[test]
fn data_safety_vetoes_unruled_directory_containing_a_database() {
    let found = DbScan::Found("/tmp/d/SomeApp/state/codex-dev.db".into());
    let step = safety("/tmp/d", &found);
    assert!(!step.passed, "a dir holding a database must NOT pass");
    assert!(step.note.contains("database"), "note names the cause: {}", step.note);
    let mut seen = quiet();
    seen.databases = found;
    let result = test_path("/tmp/d", &profile(), &seen);
    assert!(!result.safe, "pressure_test must be unsafe for a db-bearing dir");
    assert!(
        result.steps.iter().any(|s| s.name == "data safety" && !s.passed),
        "the data-safety step is the (a) failing gate"
    );
    assert_eq!(exit_code(&result), 2);
}

#[test]
fn data_safety_allows_exact_file_database_rule() {
    let path = format!("{HOME}/.screenpipe/db.sqlite");
    let step = safety(&path, &DbScan::Found(path.clone()));
    assert!(
        step.passed,
        "the curated exact-file screenpipe db rule stays deletable: {}",
        step.note
    );
    assert!(step.note.contains("exact database"), "note: {}", step.note);
}

#[test]
fn policy_blocks_builtin_secret_store() {
    let step = policy_check(&format!("{HOME}/.ssh/id_ed25519"), &profile(), HOME, &secret_stores());
    assert!(!step.passed, "~/.ssh must be blocked by the built-in floor");
    assert!(step.note.contains("secret store"), "note: {}", step.note);
}

#[test]
fn plain_build_cache_still_passes_data_safety() {
    assert!(safety("/tmp/d", &DbScan::Clean).passed, "a db-free cache passes data-safety");
    assert!(
        policy_check("/tmp/d", &profile(), HOME, &secret_stores()).passed,
        "a temp build cache is not a secret store"
    );
}

#[test]
fn data_safety_vetoes_ruled_directory_with_nested_database() {
    let step = safety("/tmp/d/stale/proj", &DbScan::Found("/tmp/d/stale/proj/app.sqlite".into()));
    assert!(
        !step.passed,
        "a manual-class directory rule must not let a nested db through: {}",
        step.note
    );
    assert!(step.note.contains("database"), "note: {}", step.note);
}

#[test]
fn data_safety_exempts_regenerable_node_modules_even_with_nested_db() {
    let step = safety(
        "/tmp/d/node_modules",
        &DbScan::Found("/tmp/d/node_modules/some-pkg/fixture.db".into()),
    );
    assert!(
        step.passed,
        "node_modules (redownload) is rule-vouched regenerable: {}",
        step.note
    );
    assert!(step.note.contains("regenerable"), "note: {}", step.note);
    assert!(!safety("/tmp/x", &DbScan::Inconclusive).passed);
}

#[test]
fn policy_names_what_blocks() {
    let mut prof = profile();
    prof.paths.never_touch.push("~/Clients/**".into());
    prof.paths.never_suggest.push("~/Movies".into());
    let check = |p: &str| policy_check(p, &prof, HOME, &secret_stores());
    assert_eq!(check("/home/test/Clients/a").note, "blocked by never_touch: ~/Clients/**");
    assert_eq!(check("/home/test/Movies/raw").note, "marked never_suggest: ~/Movies");
    assert_eq!(check("/home/test/Moviestar").note, "no policy blocks");
    assert_eq!(
        check("/home/test/.gnupg").note,
        "built-in never_touch (secret store): ~/.gnupg"
    );
}

#[test]
fn liveness_and_restat_notes() {
    assert_eq!(liveness_check(Some(4), true, false).note, "3 open file handle(s)");
    assert_eq!(liveness_check(Some(1), false, true).note, "files modified within last 24h");
    let owned = liveness_check(Some(1), true, true);
    assert!(!owned.passed);
    assert_eq!(owned.note, "owning process is running");
    assert!(liveness_check(None, false, false).passed);
    assert_eq!(restat_check(&Some("gone".into()), 7, 7).note, "cannot stat: gone");
    assert!(restat_check(&None, 7, 7).passed);
    let grown = restat_check(&None, 7, 4096);
    assert!(!grown.passed);
    assert_eq!(grown.note, "size changed since detect: 7 bytes then, 4096 bytes now");
    assert!(any_recent(&vec![NOW - 2 * DAY, NOW - DAY + 1], 24, NOW));
    assert!(!any_recent(&vec![NOW - DAY], 24, NOW));
}

#[test]
fn recency_reads_the_nearest_head() {
    let days = |n: i64| Some(NOW - n * DAY);
    assert_eq!(recency_check(&vec![None, None], NOW).note, "no enclosing git repo");
    let step = recency_check(&vec![None, days(7), days(1)], NOW);
    assert!(step.passed);
    assert_eq!(step.note, "last git activity 7 days ago");
    let step = recency_check(&vec![days(6)], NOW);
    assert!(!step.passed);
    assert_eq!(step.note, "git activity 6 day(s) ago — project may be active");
}

#[test]
fn heads_are_looked_for_up_to_the_root() {
    let joined = |path: &str, is_dir: bool| -> Vec<String> {
        git_head_files(path, is_dir).iter().map(|p| p.join(":")).collect()
    };
    assert_eq!(
        joined("/a/b", true),
        ["/:a:b:.git:HEAD", "/:a:.git:HEAD", "/:.git:HEAD"]
    );
    assert_eq!(joined("/a/b", false), ["/:a:.git:HEAD", "/:.git:HEAD"]);
    assert_eq!(joined("/", false), ["/:.git:HEAD"]);
    assert_eq!(joined("a", true), ["a:.git:HEAD", ".git:HEAD"]);
}

#[test]
fn one_failed_validator_blocks() {
    let good = test_path("/tmp/d", &profile(), &quiet());
    assert!(good.safe);
    assert_eq!(exit_code(&good), 0);
    assert_eq!(good.confidence, 1_000_000);
    let names: Vec<&str> = good.steps.iter().map(|s| s.name.as_str()).collect();
    assert_eq!(names, ["re-stat", "liveness", "data safety", "profile policy", "project recency"]);
    let mut seen = quiet();
    seen.stat_error = Some("no such file".into());
    assert!(!test_path("/tmp/d", &profile(), &seen).safe);
    let mut seen = quiet();
    seen.git_heads = vec![Some(NOW)];
    assert!(!test_path("/tmp/d", &profile(), &seen).safe);
}

#[test]
fn a_candidate_that_changed_its_size_is_blocked() {
    let c = candidate("c1");
    let check = |size: u64| {
        let mut seen = quiet();
        seen.size_bytes = size;
        check_candidate(&c, &profile(), &builtin_rules(), HOME, &secret_stores(), &seen, NOW)
    };
    assert!(check(c.size_bytes).safe);
    let grown = check(c.size_bytes + 1);
    assert!(!grown.safe);
    assert!(!grown.steps[0].passed);
    assert_eq!(exit_code(&grown), 2);
    let mut seen = quiet();
    seen.size_bytes = 12;
    let path_only = test_path(&c.path, &profile(), &seen);
    assert!(path_only.safe, "without a recorded size there is none to compare");
}

#[test]
fn the_policy_alone_has_an_exit_code_of_its_own() {
    let mut prof = profile();
    prof.paths.never_touch.push("/tmp/d".into());
    let blocked = test_path("/tmp/d", &prof, &quiet());
    assert!(!blocked.safe);
    assert_eq!(exit_code(&blocked), 3);
    let mut seen = quiet();
    seen.owner_running = true;
    assert_eq!(exit_code(&test_path("/tmp/d", &prof, &seen)), 2);
    assert_eq!(exit_code(&test_path("/tmp/d", &profile(), &seen)), 2);
}

fn candidate(id: &str) -> Candidate {
    Candidate {
        id: id.into(),
        rule_id: "r".into(),
        path: "/tmp/d".into(),
        size_bytes: 1,
        category: Category::AppCache,
        confidence: 900_000,
        reason: "x".into(),
        domain: None,
        modified: None,
        accessed: None,
        consequences: Some(Consequences {
            recovery: "rebuild".into(),
            rebuild_seconds: Some(90),
            impact: "slow".into(),
            recovery_cmd: Some("make".into()),
        }),
        consequence_contract: None,
        metrics: None,
        reference_url: Some("https://example.org/r".into()),
    }
}

#[test]
fn shown_check_has_its_steps_and_consequences() {
    let all = vec![candidate("a"), candidate("b")];
    assert_eq!(find_candidate(&all, "b"), Some(1));
    assert_eq!(find_candidate(&all, "c"), None);
    let mut result = test_path("/tmp/d", &profile(), &quiet());
    attach_candidate(&mut result, &all[1]);
    assert_eq!(result.reference_url.as_deref(), Some("https://example.org/r"));
    let rows = render_check_result_pub(&result);
    assert!(matches!(&rows[0], CheckRow::Title(t) if t == "check  ·  t"));
    let steps = rows.iter().filter(|r| matches!(r, CheckRow::Step { .. })).count();
    assert_eq!(steps, 5);
    assert!(rows.iter().any(|r| matches!(r, CheckRow::Safe { .. })));
    assert!(rows.iter().any(|r| matches!(r, CheckRow::Field { value, .. } if value == "slow")));
}

// ---- explain ---------------------------------------------------------------

fn pressure(safe: bool) -> CheckResult {
    CheckResult::gate(
        "(test)".into(),
        safe,
        1_000_000,
        vec![CheckStep { name: "re-stat".into(), passed: safe, note: String::new() }],
    )
}

fn rule_with_confidence(id: &str, conf: u32) -> Rule {
    rule(id, "**/whatever", None, conf)
}

#[test]
fn unruled_but_pressure_safe_recommends_airlock_by_path() {
    let path = "/tmp/diskspace-explain-test-unruled-safe";
    let rec = recommended_command(path, None, &pressure(true));
    assert!(
        rec.contains(&format!("diskspace airlock {path}")),
        "must recommend airlock-by-path, got: {rec}"
    );
    assert!(
        rec.contains("no rule matched") && rec.contains("reversible"),
        "must explain it's the pressure-safe reversible fallback, got: {rec}"
    );
    assert!(
        !rec.contains("can't recommend") && !rec.contains("du -sh"),
        "must NOT dead-end on the old no-recommendation string, got: {rec}"
    );
}

#[test]
fn rule_matched_high_confidence_keeps_immediate_recommendation() {
    let rule = rule_with_confidence("derived_data", IMMEDIATE_THRESHOLD);
    let rec = recommended_command("/tmp/ruled-high", Some(&rule), &pressure(true));
    assert!(
        rec.contains("--immediate") && rec.contains("Reclaim"),
        "high-confidence ruled path keeps the immediate reclaim recommendation, got: {rec}"
    );
}

#[test]
fn rule_matched_below_threshold_keeps_airlock_by_id_recommendation() {
    let rule = rule_with_confidence("node_modules", IMMEDIATE_THRESHOLD - 100_000);
    let rec = recommended_command("/tmp/ruled-low", Some(&rule), &pressure(true));
    assert!(
        rec.contains("Airlock (reversible)") && rec.contains("airlock <id>"),
        "below-threshold ruled path keeps airlock-by-id, got: {rec}"
    );
}

#[test]
fn pressure_failure_returns_block_message_regardless_of_rule() {
    let ruled = rule_with_confidence("derived_data", 950_000);
    let rec_unruled = recommended_command("/tmp/unsafe", None, &pressure(false));
    let rec_ruled = recommended_command("/tmp/unsafe", Some(&ruled), &pressure(false));
    for rec in [&rec_unruled, &rec_ruled] {
        assert!(
            rec.contains("Do not delete") && rec.contains("pressure test failed"),
            "pressure failure must block, got: {rec}"
        );
        assert!(
            !rec.contains("airlock"),
            "block message must not recommend an airlock, got: {rec}"
        );
    }
}

#[test]
fn helper_is_callable_from_outside_explain() {
    let rec = recommended_command("/tmp/external", None, &pressure(true));
    assert!(!rec.is_empty());
    assert!((0..=1_000_000).contains(&IMMEDIATE_THRESHOLD));
    assert_eq!(rec, recommended_command_for("/tmp/external", None, &pressure(true)));
}

#[test]
fn rules_are_found_by_their_globs() {
    let rules = builtin_rules();
    assert_eq!(find_rule("/x/y/node_modules", &rules, HOME), Some(0));
    assert_eq!(find_rule("/home/test/.screenpipe/db.sqlite", &rules, HOME), Some(2));
    assert_eq!(find_rule("/x/y/other", &rules, HOME), None);
    assert_eq!(expand_target("~/x", HOME), "/home/test/x");
    assert_eq!(expand_target("~", HOME), "/home/test");
    assert_eq!(expand_target("x~", HOME), "x~");
}

#[test]
fn recovery_times_and_percentages() {
    assert_eq!(format_recovery("rebuild", None), "rebuild");
    assert_eq!(format_recovery("rebuild", Some(30)), "rebuild · ~30s");
    assert_eq!(format_recovery("rebuild", Some(90)), "rebuild · ~1 min");
    assert_eq!(to_percent(850_000), 85);
    assert_eq!(to_percent(855_000), 86);
    assert_eq!(to_percent(845_000), 84);
}

#[test]
fn patterns_of_the_simple_forms() {
    let hit = |pattern: &str, path: &str| {
        rule_hits(&vec![rule("r", pattern, None, 1)], path, HOME)[0]
    };
    assert!(hit("/a/b", "/a/b"));
    assert!(!hit("/a/b", "/a/b/c"));
    assert!(hit("~/Clients/**", "/home/test/Clients/acme/x"));
    assert!(hit("~/Clients/**", "/home/test/Clients/"));
    assert!(!hit("~/Clients/**", "/home/test/Clients"));
    assert!(!hit("~/Clients/**", "/home/test/Clientship/x"));
    assert!(hit("**/node_modules", "node_modules"));
    assert!(hit("**/node_modules", "/x/y/node_modules"));
    assert!(!hit("**/node_modules", "/x/my_node_modules"));
    assert!(!hit("**/node_modules", "/x/node_modules/y"));
    assert!(hit("**/a/b", "/x/a/b"));
    assert!(!hit("a**/b", "a/b"), "a malformed pattern matches nothing");
    assert!(hit("/a/*.dm[g]", "/a/b/c.dmg"));
}
