use diskspace::apply::{
    apply_goal, file_on_disk_bytes, has_drifted, revalidate, Refusal, Sighting,
};
use diskspace::check::{DbScan, Observations};
use diskspace::doctor::{Mode, Plan, PlanStep};
use diskspace::execute::{execute_begin, execute_outcome, execute_plan, ExecuteAction, ExecuteEvent};
use diskspace::model::{CheckResult, PathPolicies, Preferences, Profile};
use diskspace::plan::{
    apply_command, canonical_bytes, compute_plan_hash, plan_path, plan_request, plans_dir,
};

const NOW: i64 = 1_700_000_000_000_000_000;
const HOME: &str = "/home/test";

fn profile() -> Profile {
    Profile {
        domains: Vec::new(),
        paths: PathPolicies { never_touch: Vec::new(), never_suggest: Vec::new() },
        preferences: Preferences {
            airlock_retention_days: 7,
            min_candidate_bytes: 0,
            pressure_threshold_bytes: 0,
            confirm_before_airlock: true,
            watch_autoreclaim: false,
        },
    }
}

fn step(candidate_id: &str, path: &str, size: u64, mode: &str) -> PlanStep {
    PlanStep {
        candidate_id: candidate_id.into(),
        rule_id: "rule".into(),
        path: path.into(),
        size_bytes: size,
        confidence: 900_000,
        mode: mode.into(),
        reversible: mode == "airlock",
        pressure: CheckResult::gate(candidate_id.into(), true, 1_000_000, vec![]),
        consequence_contract: None,
    }
}

#[test]
fn plan_hash_is_stable_for_same_actions() {
    let a = vec![
        step("c1", "/a", 100, "airlock"),
        step("c2", "/b", 200, "airlock"),
    ];
    let mut b = vec![
        step("c2", "/b", 200, "airlock"),
        step("c1", "/a", 100, "airlock"),
    ];
    b[0].pressure = CheckResult::gate("c2".into(), true, 500_000, vec![]);
    b[0].confidence = 100_000;
    assert_eq!(
        compute_plan_hash(&a),
        compute_plan_hash(&b),
        "hash is over canonical (id,path,size,mode) sorted by id — order and \
         the time-varying pressure/confidence must NOT change it"
    );
}

#[test]
fn plan_hash_changes_when_one_canonical_field_changes() {
    let base = vec![step("c1", "/a", 100, "airlock")];
    let h0 = compute_plan_hash(&base);
    let changed_size = vec![step("c1", "/a", 101, "airlock")];
    assert_ne!(h0, compute_plan_hash(&changed_size), "size is in the hash");
    let changed_path = vec![step("c1", "/a2", 100, "airlock")];
    assert_ne!(h0, compute_plan_hash(&changed_path), "path is in the hash");
    let changed_mode = vec![step("c1", "/a", 100, "immediate")];
    assert_ne!(h0, compute_plan_hash(&changed_mode), "mode is in the hash");
    let changed_id = vec![step("c9", "/a", 100, "airlock")];
    assert_ne!(h0, compute_plan_hash(&changed_id), "id is in the hash");
}

#[test]
fn plan_hash_has_sixty_four_hex_digits() {
    for steps in [vec![], vec![step("c1", "/a", 100, "airlock")]] {
        let hash = compute_plan_hash(&steps);
        assert_eq!(hash.len(), 64);
        assert!(hash.chars().all(|c| c.is_ascii_digit() || ('a'..='f').contains(&c)));
    }
}

#[test]
fn plan_hash_is_the_digest_of_the_records() {
    assert_eq!(
        compute_plan_hash(&vec![step("c1", "/a", 100, "airlock")]),
        "58f223443e3b7b661527ec90fef304950c0e7f15fe1c0c027baf0077c69a29e7"
    );
    assert_eq!(
        compute_plan_hash(&vec![step("c2", "/b", 200, "immediate"), step("c1", "/a", 100, "airlock")]),
        "270f6620bbf8ce72f1c98581acc12632ab6afd5ded7ac59ca9c03de125a878c8"
    );
    assert_eq!(
        compute_plan_hash(&Vec::new()),
        "e3b0c44298fc1c149afbf4c8996fb92427ae41e4649b934ca495991b7852b855"
    );
}

#[test]
fn fields_do_not_run_into_each_other() {
    let a = canonical_bytes(&vec![step("ab", "c", 1, "m")]);
    let b = canonical_bytes(&vec![step("a", "bc", 1, "m")]);
    assert_ne!(a, b);
    assert_eq!(&a[..11], [2, 0, 0, 0, 0, 0, 0, 0, b'a', b'b', 0]);
    let e = canonical_bytes(&vec![step("é", "c", 258, "m")]);
    assert_eq!(&e[..11], [2, 0, 0, 0, 0, 0, 0, 0, 0xc3, 0xa9, 0]);
    assert_eq!(&e[21..30], [2, 1, 0, 0, 0, 0, 0, 0, 0]);
}

#[test]
fn plan_paths_and_commands() {
    assert_eq!(plans_dir("/home/test/.diskspace"), "/home/test/.diskspace/plans");
    assert_eq!(plan_path("/home/test/.diskspace", "abc"), "/home/test/.diskspace/plans/abc.json");
    assert_eq!(apply_command("abc"), "diskspace apply abc");
}

#[test]
fn plan_request_subtracts_what_is_free() {
    let gib = 1024 * 1024 * 1024u64;
    let r = plan_request("20G", "immediate", Some(5 * gib)).unwrap();
    assert_eq!((r.need_bytes, r.to_recover, r.mode), (20 * gib, 15 * gib, Mode::Immediate));
    let r = plan_request("20G", "airlock", Some(50 * gib)).unwrap();
    assert_eq!(r.to_recover, 0);
    let r = plan_request("1", "x", None).unwrap();
    assert_eq!((r.to_recover, r.mode), (1, Mode::Airlock));
    assert!(plan_request("much", "airlock", None).is_none());
}

// ---- apply -----------------------------------------------------------------

fn quiet() -> Observations {
    Observations {
        stat_error: None,
        size_bytes: 0,
        open_file_lines: Some(1),
        owner_running: false,
        recent_write: false,
        databases: DbScan::Clean,
        git_heads: Vec::new(),
    }
}

fn make_plan(size: u64) -> (Plan, String) {
    let mut s = step("manual-nm", "/home/test/proj/nm", size, "airlock");
    s.rule_id = "manual".into();
    let steps = vec![s];
    let hash = compute_plan_hash(&steps);
    let plan = Plan {
        plan_hash: hash.clone(),
        need_bytes: size,
        steps,
        projected_freed: size as u128,
        created_at: NOW,
    };
    (plan, hash)
}

fn sight(exists: bool, size: u64) -> Vec<Sighting> {
    vec![Sighting { exists, size, seen: quiet() }]
}

fn validate(plan: &Plan, hash: &str, prof: &Profile, seen: Vec<Sighting>) -> Result<(), Refusal> {
    revalidate(plan, hash, prof, &Vec::new(), HOME, &Vec::new(), &seen, NOW)
}

#[test]
fn revalidate_refuses_on_hash_mismatch() {
    let (plan, hash) = make_plan(4096);
    let bogus = format!("{}deadbeef", &hash[..hash.len() - 8]);
    let refusal = validate(&plan, &bogus, &profile(), sight(true, 4096)).unwrap_err();
    assert!(matches!(&refusal, Refusal::HashMismatch { .. }), "expected HashMismatch");
    assert_eq!(refusal.exit_code(), 1);
    assert!(refusal.reason().contains(&hash));
}

#[test]
fn revalidate_refuses_when_target_deleted_between_plan_and_apply() {
    let (plan, hash) = make_plan(4096);
    let refusal = validate(&plan, &hash, &profile(), sight(false, 0)).unwrap_err();
    assert!(matches!(&refusal, Refusal::Missing { .. }), "expected Missing");
    assert_eq!(refusal.exit_code(), 1);
}

#[test]
fn revalidate_refuses_when_target_grows_beyond_tolerance() {
    let (plan, hash) = make_plan(10_000);
    let refusal = validate(&plan, &hash, &profile(), sight(true, 30_000)).unwrap_err();
    assert!(matches!(&refusal, Refusal::SizeDrift { .. }), "expected SizeDrift");
    assert_eq!(
        refusal.reason(),
        "target size drifted >10%: /home/test/proj/nm planned 10000 bytes, now 30000 bytes (refusing)"
    );
}

#[test]
fn revalidate_refuses_when_pressure_test_now_unsafe() {
    let (plan, hash) = make_plan(4096);
    let mut prof = profile();
    prof.paths.never_touch.push("/home/test/proj/nm".into());
    let refusal = validate(&plan, &hash, &prof, sight(true, 4096)).unwrap_err();
    assert!(matches!(&refusal, Refusal::Unsafe { .. }), "expected Unsafe");
    assert_eq!(refusal.exit_code(), 2);
}

#[test]
fn clean_revalidate_passes_and_execute_plan_airlocks() {
    let (plan, hash) = make_plan(4096);
    assert!(
        matches!(validate(&plan, &hash, &profile(), sight(true, 4096)), Ok(())),
        "an unmodified target within tolerance and passing the live gate must validate"
    );
    let df = 1_000_000;
    let need = apply_goal(df, plan.need_bytes);
    assert_eq!(need, 1_004_096);
    let mut run = execute_begin(&plan, None, HOME, df, need);
    assert_eq!(run.next_action(), ExecuteAction::Act(0));
    execute_plan(&mut run, ExecuteEvent::Done(None), &plan, None, HOME, df, need);
    assert_eq!(run.next_action(), ExecuteAction::Finish);
    assert_eq!(execute_outcome(&run, df, Some(df)).freed_bytes, plan.steps[0].size_bytes as u128);
}

#[test]
fn drift_tolerates_a_tenth() {
    assert!(!has_drifted(100, 110));
    assert!(has_drifted(100, 111));
    assert!(!has_drifted(100, 90));
    assert!(has_drifted(100, 89));
    assert!(!has_drifted(0, 0));
    assert!(has_drifted(0, 1));
    assert!(!has_drifted(u64::MAX, u64::MAX));
}

#[test]
fn current_size_uses_allocated_blocks_basis_like_the_scanner() {
    assert_eq!(file_on_disk_bytes(1, 8), 8 * 512);
    assert_ne!(file_on_disk_bytes(1, 8), 1);
}

#[test]
fn ordinary_file_is_not_mistaken_for_a_cloud_placeholder() {
    assert!(file_on_disk_bytes(8192, 16) > 0);
    assert_eq!(file_on_disk_bytes(8192, 0), 0);
    assert_eq!(file_on_disk_bytes(4096, 0), 0);
}

#[test]
fn goal_saturates() {
    assert_eq!(apply_goal(u64::MAX, 1), u64::MAX);
}
