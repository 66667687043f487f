use diskspace::grant::{
    allows, parse_recovery_class, recovery_class_of, Denial, Grant, GrantCategory, GrantDecision,
    RecoveryClass,
};
use diskspace::grant_cmd::{
    issue_params, parse_bytes, parse_category, parse_ceiling, parse_duration,
};
use diskspace::model::Consequences;

#[test]
fn parse_category_accepts_aliases() {
    assert_eq!(
        parse_category("build-recovery").unwrap(),
        GrantCategory::BuildRecovery
    );
    assert_eq!(
        parse_category("AGENT_AUTONOMY").unwrap(),
        GrantCategory::AgentAutonomy
    );
    assert!(parse_category("nope").is_err());
}

#[test]
fn unknown_category_names_itself() {
    assert_eq!(
        parse_category(" No-Pe ").unwrap_err(),
        "unknown category 'nope' (use build-recovery | routine-cleanup | agent-autonomy)"
    );
    assert_eq!(parse_category("RoutineCleanup").unwrap(), GrantCategory::RoutineCleanup);
}

#[test]
fn parse_bytes_suffixes() {
    assert_eq!(parse_bytes("1024").unwrap(), 1024);
    assert_eq!(parse_bytes("20G").unwrap(), 20_000_000_000);
    assert_eq!(parse_bytes("500M").unwrap(), 500_000_000);
    assert_eq!(parse_bytes("2K").unwrap(), 2_000);
    assert!(parse_bytes("").is_err());
    assert!(parse_bytes("-5G").is_err());
}

#[test]
fn byte_errors_say_why() {
    assert_eq!(parse_bytes("  ").unwrap_err(), "empty byte size");
    assert_eq!(parse_bytes("x").unwrap_err(), "invalid byte size 'x'");
    assert_eq!(parse_bytes("-5G").unwrap_err(), "byte size cannot be negative: -5G");
    assert_eq!(parse_bytes("0.1t").unwrap(), (0.1f64 * 1e12) as u64);
    assert_eq!(parse_bytes("1.1g").unwrap(), (1.1f64 * 1e9) as u64);
    assert_eq!(parse_bytes("-0").unwrap(), 0);
}

#[test]
fn parse_duration_units() {
    assert_eq!(parse_duration("2h").unwrap().seconds(), Some(2 * 3600));
    assert_eq!(parse_duration("30m").unwrap().seconds(), Some(30 * 60));
    assert_eq!(parse_duration("7d").unwrap().seconds(), Some(7 * 86_400));
    assert_eq!(parse_duration("90").unwrap().seconds(), Some(90));
    assert!(parse_duration("0h").is_err());
    assert!(parse_duration("").is_err());
}

#[test]
fn duration_errors_say_why() {
    assert_eq!(parse_duration("").unwrap_err(), "empty duration");
    assert_eq!(parse_duration("1.5h").unwrap_err(), "invalid duration '1.5h'");
    assert_eq!(parse_duration("-2h").unwrap_err(), "duration must be positive: -2h");
    assert_eq!(parse_duration("2W").unwrap().seconds(), Some(2 * 604_800));
    assert_eq!(parse_duration("9223372036854775807d").unwrap().seconds(), None);
}

#[test]
fn parse_ceiling_fail_closed() {
    assert_eq!(parse_ceiling("rebuild"), RecoveryClass::Rebuild);
    assert_eq!(parse_ceiling("bogus"), RecoveryClass::Irreversible);
}

#[test]
fn issuing_reports_the_first_bad_word() {
    let p = issue_params("agent-autonomy", "5G", "rebuild", 850_000, Some("~/x/*"), "2h").unwrap();
    assert_eq!(p.category, GrantCategory::AgentAutonomy);
    assert_eq!(p.max_bytes, 5_000_000_000);
    assert_eq!(p.recovery_class_ceiling, RecoveryClass::Rebuild);
    assert_eq!(p.min_confidence, 850_000);
    assert_eq!(p.path_scope.as_deref(), Some("~/x/*"));
    assert_eq!(p.valid_for.seconds(), Some(7200));
    assert!(issue_params("x", "y", "z", 0, None, "w").unwrap_err().starts_with("unknown category"));
    assert_eq!(
        issue_params("agent-autonomy", "y", "z", 0, None, "w").unwrap_err(),
        "invalid byte size 'y'"
    );
    assert_eq!(
        issue_params("agent-autonomy", "1", "z", 0, None, "w").unwrap_err(),
        "invalid duration 'w'"
    );
}

fn grant() -> Grant {
    Grant {
        category: GrantCategory::RoutineCleanup,
        recovery_class_ceiling: RecoveryClass::Rebuild,
        max_bytes: 100,
        min_confidence: 800_000,
        path_scope: Some("~/Code/**".to_string()),
        expires_at: 0,
    }
}

fn cons(recovery: &str) -> Consequences {
    Consequences {
        recovery: recovery.into(),
        rebuild_seconds: None,
        impact: String::new(),
        recovery_cmd: None,
    }
}

#[test]
fn every_bound_of_a_grant_holds() {
    let g = grant();
    let path = "/Users/x/Code/app/target";
    let ask = |recovery: Option<&Consequences>, confidence, size, path, spent| {
        allows(&g, recovery, confidence, size, path, spent, "/Users/x")
    };
    let rebuild = cons("rebuild");
    let recreate = cons("recreate");
    assert_eq!(ask(Some(&rebuild), 800_000, 60, path, 40), GrantDecision::Allow);
    assert_eq!(ask(Some(&recreate), 900_000, 1, path, 0), GrantDecision::Deny(Denial::Ceiling));
    assert_eq!(ask(None, 900_000, 1, path, 0), GrantDecision::Deny(Denial::Ceiling));
    assert_eq!(ask(Some(&rebuild), 799_999, 1, path, 0), GrantDecision::Deny(Denial::Confidence));
    assert_eq!(ask(Some(&rebuild), 900_000, 61, path, 40), GrantDecision::Deny(Denial::Budget));
    assert_eq!(
        ask(Some(&rebuild), 900_000, u64::MAX, path, u64::MAX),
        GrantDecision::Deny(Denial::Budget)
    );
    assert_eq!(
        ask(Some(&rebuild), 900_000, 1, "/Users/x/Documents/a", 0),
        GrantDecision::Deny(Denial::Scope)
    );
}

#[test]
fn recovery_classes_in_their_order() {
    let names = ["auto", "redownload", "rebuild", "recreate", "manual", "irreversible"];
    for pair in names.windows(2) {
        assert!(parse_recovery_class(pair[0]).rank() < parse_recovery_class(pair[1]).rank());
    }
    assert_eq!(recovery_class_of(None), RecoveryClass::Irreversible);
    assert_eq!(recovery_class_of(Some(&cons("auto"))), RecoveryClass::Auto);
}
