use diskspace::detect::{
    build_candidates_pub, candidate_recovery_class, category_from_str, collect_candidates, is_never_touch,
    is_regenerable, is_risky_recovery, md5_short, recovery_risk_rank,
};
use diskspace::model::{
    Candidate, Category, Consequences, Domain, Metrics, PathPolicies, Preferences, Profile, Rule,
    ScanResult, ScannedEntry, IMMEDIATE_THRESHOLD,
};
use diskspace::report::{
    category_rollup, detect_json_payload, detect_report, rank_candidates, total_bytes,
    DETECT_JSON_SCHEMA_VERSION,
};

const DAY: i64 = 86_400_000_000_000;
const NOW: i64 = 20_000 * DAY;
const RECENCY_DECAY: f64 = 0.6;

fn cons(recovery: &str) -> Consequences {
    Consequences {
        recovery: recovery.into(),
        rebuild_seconds: Some(60),
        impact: "test".into(),
        recovery_cmd: None,
    }
}

fn test_profile() -> Profile {
    Profile {
        domains: Vec::new(),
        paths: PathPolicies {
            never_touch: Vec::new(),
            never_suggest: Vec::new(),
        },
        preferences: Preferences {
            airlock_retention_days: 30,
            min_candidate_bytes: 0,
            pressure_threshold_bytes: 0,
            confirm_before_airlock: true,
            watch_autoreclaim: false,
        },
    }
}

fn rule(id: &str, pattern: &str, base: u32, recovery: &str, recent: Option<u32>) -> Rule {
    Rule {
        id: id.into(),
        category: "dev-artifact".into(),
        path_pattern: pattern.into(),
        domain: None,
        base_confidence: base,
        reason: "test rule".into(),
        exclude_if_recent_access_days: None,
        exclude_if_recent_modified_days: recent,
        consequences: Some(cons(recovery)),
        reference_url: None,
    }
}

fn entry(path: &str, size: u64, modified_days_ago: i64) -> ScannedEntry {
    ScannedEntry {
        path: path.into(),
        size_bytes: size,
        category: Category::DevArtifact,
        modified: Some(NOW - modified_days_ago * DAY),
        accessed: Some(NOW - modified_days_ago * DAY),
    }
}

fn scan_with(entries: Vec<ScannedEntry>) -> ScanResult {
    ScanResult {
        scanned_at: NOW,
        entries,
        largest_dirs: Vec::new(),
    }
}

fn build(scan: &ScanResult, rules: &Vec<Rule>, prof: &Profile) -> Vec<Candidate> {
    build_candidates_pub(scan, rules, prof, "/home/test", NOW, &Vec::new())
}

fn sorted(candidates: Vec<Candidate>) -> Vec<Candidate> {
    rank_candidates(&candidates)
}

#[test]
fn one_rule_emits_a_candidate_per_matched_entry() {
    let rules = vec![rule("node_modules", "/proj/**", 900_000, "redownload", None)];
    let scan = scan_with(vec![
        entry("/proj/a/node_modules", 100, 999),
        entry("/proj/b/node_modules", 300, 999),
        entry("/proj/c/node_modules", 200, 999),
    ]);
    let got = build(&scan, &rules, &test_profile());
    assert_eq!(
        got.len(),
        3,
        "every surviving matched entry must become a candidate (no `break`)"
    );

    let ranked = sorted(got);
    assert_eq!(
        ranked[0].size_bytes, 300,
        "the largest candidate must rank first after the score sort"
    );
    assert_eq!(ranked[2].size_bytes, 100);
}

#[test]
fn nested_candidate_under_kept_ancestor_is_dropped() {
    let rules = vec![
        rule("target", "/proj/**/target", 900_000, "rebuild", None),
        rule("target_inner", "/proj/**/debug", 900_000, "rebuild", None),
    ];
    let scan = scan_with(vec![
        entry("/proj/target", 1000, 999),
        entry("/proj/target/debug", 600, 999),
    ]);
    let got = build(&scan, &rules, &test_profile());
    assert_eq!(
        got.len(),
        1,
        "nested candidate under ancestor must be dropped"
    );
    assert_eq!(got[0].path, "/proj/target");
}

#[test]
fn recent_regenerable_target_is_kept_but_decayed() {
    let rules = vec![rule(
        "target",
        "/proj/**/target",
        900_000,
        "rebuild",
        Some(7), // exclude-if-modified-within 7 days
    )];
    // Modified 1 day ago: well inside the recency window.
    let scan = scan_with(vec![entry("/proj/x/target", 500, 1)]);
    let got = build(&scan, &rules, &test_profile());
    assert_eq!(
        got.len(),
        1,
        "recent rebuild-class target must still appear"
    );
    let c = &got[0];
    assert!(
        (c.confidence as f64 / 1e6 - 0.9 * RECENCY_DECAY).abs() < 1e-5,
        "confidence must be decayed by RECENCY_DECAY, got {}",
        c.confidence
    );
}

#[test]
fn recent_irreversible_item_stays_excluded() {
    let rules = vec![rule("vm_disk", "/vms/**", 900_000, "irreversible", Some(30))];
    let scan = scan_with(vec![entry("/vms/win.qcow2", 9000, 2)]);
    let got = build(&scan, &rules, &test_profile());
    assert!(
        got.is_empty(),
        "recent irreversible item must remain hard-excluded"
    );
}

#[test]
fn irreversible_low_conf_ranks_below_safe_regenerable() {
    let rules = vec![
        rule("vm_disk", "/vms/**", 450_000, "irreversible", None),
        rule("node_modules", "/proj/**", 900_000, "redownload", None),
    ];
    let scan = scan_with(vec![
        entry("/vms/disk.img", 2000, 999),
        entry("/proj/node_modules", 1000, 999),
    ]);
    let got = build(&scan, &rules, &test_profile());
    let ranked = sorted(got);
    assert_eq!(
        candidate_recovery_class(&ranked[0]),
        "redownload",
        "the safe regenerable win must rank first"
    );
    assert_eq!(
        candidate_recovery_class(&ranked[1]),
        "irreversible",
        "the low-confidence irreversible item must rank last"
    );
}

#[test]
fn detect_json_payload_carries_new_keys() {
    let rules = vec![rule("node_modules", "/proj/**", 900_000, "redownload", None)];
    let scan = scan_with(vec![
        entry("/proj/a/node_modules", 100, 999),
        entry("/proj/b/node_modules", 300, 999),
    ]);
    let candidates = sorted(build(&scan, &rules, &test_profile()));
    let total: u64 = candidates.iter().map(|c| c.size_bytes).sum();

    let payload = detect_json_payload(&candidates, candidates.len(), total as u128);

    assert_eq!(payload.meta.schema_version, DETECT_JSON_SCHEMA_VERSION);
    assert_eq!(payload.meta.immediate_threshold, IMMEDIATE_THRESHOLD);
    assert!(
        (payload.meta.immediate_threshold as f64 / 1e6 - 0.85_f64).abs() < 1e-6,
        "immediate_threshold must be 0.85"
    );
    assert_eq!(
        payload.meta.total_reclaimable_bytes, total as u128,
        "meta must report the FULL-set reclaimable total"
    );
    assert_eq!(payload.meta.total_candidates, 2);

    assert_eq!(payload.candidates.len(), 2);
    for c in &payload.candidates {
        assert_eq!(c.recovery_class, "redownload");
        assert!(!c.recommended_command.is_empty());
    }
}

#[test]
fn exact_duplicate_path_from_two_rules_collapses_to_one() {
    let rules = vec![
        rule(
            "cache_generic",
            "/u/Library/Caches/**",
            700_000,
            "redownload",
            None,
        ),
        rule(
            "vendor_foo",
            "/u/Library/Caches/foo",
            900_000,
            "redownload",
            None,
        ),
    ];
    let scan = scan_with(vec![entry("/u/Library/Caches/foo", 4096, 999)]);
    let got = build(&scan, &rules, &test_profile());
    assert_eq!(
        got.len(),
        1,
        "an identical path matched by two rules must yield exactly one candidate"
    );
    assert_eq!(got[0].path, "/u/Library/Caches/foo");
    // The kept candidate is the higher-confidence one.
    assert!(
        (got[0].confidence as f64 / 1e6 - 0.9).abs() < 1e-5,
        "the highest-confidence duplicate must be the one kept, got {}",
        got[0].confidence
    );
    let total: u64 = got.iter().map(|c| c.size_bytes).sum();
    assert_eq!(total, 4096, "bytes must be counted once, not doubled");
}

#[test]
fn recency_decayed_candidate_is_not_recommended_immediate() {
    let rules = vec![rule(
        "node_modules",
        "/proj/**/node_modules",
        900_000,
        "redownload",
        Some(14),
    )];
    let scan = scan_with(vec![entry("/proj/x/node_modules", 5000, 1)]);
    let got = build(&scan, &rules, &test_profile());
    assert_eq!(
        got.len(),
        1,
        "recent regenerable candidate must still appear"
    );
    assert!(
        got[0].confidence < IMMEDIATE_THRESHOLD,
        "precondition: confidence must be decayed below threshold, got {}",
        got[0].confidence
    );

    let payload = detect_json_payload(&got, got.len(), 5000);
    let rec = payload.candidates[0].recommended_command.as_str();
    assert!(
        !rec.contains("--immediate"),
        "a decayed candidate must NOT get an --immediate recommendation, got: {rec}"
    );
    assert!(
        rec.contains("Airlock (reversible)"),
        "a decayed candidate must get the reversible airlock recommendation, got: {rec}"
    );
    assert!(
        (got[0].confidence as f64 / 1e6 - 0.9 * RECENCY_DECAY).abs() < 1e-5,
        "serialized confidence must reflect the decay"
    );
}

#[test]
fn is_regenerable_classifies_correctly() {
    for c in ["auto", "redownload", "rebuild", "recreate"] {
        assert!(is_regenerable(c), "{c} must be regenerable");
    }
    for c in ["manual", "irreversible", ""] {
        assert!(!is_regenerable(c), "{c} must NOT be regenerable");
    }
}

#[test]
fn recovery_risk_rank_orders_safe_before_risky() {
    assert!(recovery_risk_rank("auto") < recovery_risk_rank("irreversible"));
    assert!(recovery_risk_rank("redownload") < recovery_risk_rank("manual"));
    assert!(recovery_risk_rank("rebuild") < recovery_risk_rank("irreversible"));
}

#[test]
fn category_names_map_to_categories() {
    assert_eq!(category_from_str("dev-artifact"), Category::DevArtifact);
    assert_eq!(category_from_str("app-cache"), Category::AppCache);
    assert_eq!(category_from_str("download-entropy"), Category::DownloadEntropy);
    assert_eq!(category_from_str("vm-disk"), Category::VmDisk);
    assert_eq!(category_from_str("other"), Category::Unknown);
}

#[test]
fn short_hash_is_fnv1a() {
    assert_eq!(md5_short(""), 0x811c9dc5);
    assert_eq!(md5_short("a"), 0xe40c292c);
    assert_eq!(md5_short("foobar"), 0xbf9cf968);
}

#[test]
fn never_touch_patterns_hold_candidates_back() {
    let rules = vec![rule("node_modules", "/home/test/**", 900_000, "redownload", None)];
    let scan = scan_with(vec![
        entry("/home/test/keep/node_modules", 100, 999),
        entry("/home/test/drop/node_modules", 100, 999),
    ]);
    let mut prof = test_profile();
    prof.paths.never_touch.push("~/keep/**".into());
    let got = build(&scan, &rules, &prof);
    assert_eq!(got.len(), 1);
    assert_eq!(got[0].path, "/home/test/drop/node_modules");
    assert!(is_never_touch(
        "/home/test/keep/node_modules",
        &prof.paths.never_touch,
        "/home/test"
    ));
    assert!(!is_never_touch(
        "/home/test/drop/node_modules",
        &prof.paths.never_touch,
        "/home/test"
    ));
}

#[test]
fn given_matches_decide_without_any_pattern() {
    let rules = vec![rule("r", "(not a pattern)", 900_000, "rebuild", None)];
    let scan = scan_with(vec![entry("/a", 1, 999), entry("/b", 2, 999)]);
    let hits = vec![vec![false, true]];
    let got = collect_candidates(
        &scan,
        &rules,
        &test_profile(),
        NOW,
        &Vec::new(),
        &hits,
        &vec![false, false],
    );
    assert_eq!(got.len(), 1);
    assert_eq!(got[0].path, "/b");
    let none = collect_candidates(
        &scan,
        &rules,
        &test_profile(),
        NOW,
        &Vec::new(),
        &hits,
        &vec![false, true],
    );
    assert!(none.is_empty());
}

#[test]
fn inactivity_boosts_confidence_up_to_a_cap() {
    let mut r = rule("xcode", "/x/**", 950_000, "rebuild", None);
    r.domain = Some("ios".into());
    let mut prof = test_profile();
    prof.domains.push(Domain {
        name: "ios".into(),
        active: false,
    });
    let scan = scan_with(vec![entry("/x/y", 10, 999)]);
    let got = build(&scan, &vec![r], &prof);
    assert_eq!(got[0].confidence, 990_000);
}

#[test]
fn measurements_are_attached_per_entry() {
    let rules = vec![rule("r", "/p/**", 900_000, "rebuild", None)];
    let scan = scan_with(vec![entry("/p/a", 1, 999), entry("/p/b", 2, 999)]);
    let m = Metrics {
        staleness_days: Some(9),
        metric_confidence: 100_000,
    };
    let got = build_candidates_pub(
        &scan,
        &rules,
        &test_profile(),
        "/h",
        NOW,
        &vec![None, Some(m)],
    );
    assert_eq!(got.len(), 2);
    assert_eq!(got[0].metrics, None);
    assert_eq!(got[1].metrics, Some(m));
}

#[test]
fn totals_and_rollup_count_each_candidate_once() {
    let rules = vec![rule("r", "/p/**", 900_000, "manual", None)];
    let scan = scan_with(vec![entry("/p/a", 10, 999), entry("/p/b", 32, 999)]);
    let got = build(&scan, &rules, &test_profile());
    assert_eq!(total_bytes(&got), 42);
    assert!(is_risky_recovery(&got[0]));
    let rollup = category_rollup(&got);
    assert_eq!(rollup.len(), 1);
    assert_eq!(rollup[0].bytes, 42);
    assert_eq!(rollup[0].count, 2);
    let report = detect_report(&got, false, 1);
    assert_eq!(report.shown.len(), 1);
    assert_eq!(report.shown[0].size_bytes, 32);
    assert_eq!(report.total_candidates, 2);
}

#[test]
fn candidates_are_listed_in_path_order() {
    let rules = vec![rule("any", "/proj/**", 900_000, "rebuild", None)];
    let scan = scan_with(vec![
        entry("/proj/b/x", 1, 999),
        entry("/proj/a-b", 2, 999),
        entry("/proj/a/z", 3, 999),
        entry("/proj/a/..", 4, 999),
    ]);
    let got = build(&scan, &rules, &test_profile());
    let paths: Vec<&str> = got.iter().map(|c| c.path.as_str()).collect();
    assert_eq!(paths, ["/proj/a/..", "/proj/a/z", "/proj/a-b", "/proj/b/x"]);
}
