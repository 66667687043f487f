use diskspace::airlock::{
    airlock_exit, airlock_next, airlocked_receipt, deleted_receipt, find_target, place_candidate,
    AirlockNext, AirlockRequest, Answers, Target,
};
use diskspace::classify::{reclaimed_receipt, Classification, Strategy};
use diskspace::doctor::PlanStep;
use diskspace::execute::step_receipt;
use diskspace::grant::{Denial, Grant, GrantCategory, RecoveryClass};
use diskspace::history::{
    age_text, command_tone, freed_between, last_reversible, parse_id_from_undo_cmd,
    receipt_totals, reversal, reversed_receipt, undo_command, ActionKind, Entry, MoveKind, Reversal,
    Tone,
};
use diskspace::model::{
    Candidate, Category, CheckResult, CheckStep, Consequences, Context, PathPolicies, Preferences,
    Profile,
};
use diskspace::reclaim::{
    blocked_note, pick_candidates, reclaim_begin, reclaim_exit, reclaim_step, sift_by_grant,
    typed_consent_needed, ReclaimAction, ReclaimEnd, ReclaimEvent, ReclaimRun,
};
use diskspace::report::supply_exit;
use diskspace::store::{
    at_positions, choose_entries, days_left, find_entry, purge_positions, purged_receipt,
    restored_receipt, total_held, without_positions, Held, RestoreChoice,
};

const DAY: i64 = 86_400_000_000_000;
const NOW: i64 = 20_000 * DAY;
const HOME: &str = "/home/test";

fn candidate(id: &str, confidence: u32, recovery: &str, size: u64) -> Candidate {
    Candidate {
        id: id.into(),
        rule_id: "rule".into(),
        path: format!("/home/test/{id}"),
        size_bytes: size,
        category: Category::DevArtifact,
        confidence,
        reason: "x".into(),
        domain: None,
        modified: None,
        accessed: None,
        consequences: Some(Consequences {
            recovery: recovery.into(),
            rebuild_seconds: None,
            impact: "x".into(),
            recovery_cmd: None,
        }),
        consequence_contract: None,
        metrics: None,
        reference_url: None,
    }
}

fn profile(confirm: bool) -> Profile {
    Profile {
        domains: Vec::new(),
        paths: PathPolicies { never_touch: Vec::new(), never_suggest: Vec::new() },
        preferences: Preferences {
            airlock_retention_days: 7,
            min_candidate_bytes: 0,
            pressure_threshold_bytes: 0,
            confirm_before_airlock: confirm,
            watch_autoreclaim: false,
        },
    }
}

fn ctx(json: bool) -> Context {
    Context { json, yes: false, no_color: true, verbose: false, quiet: true }
}

fn grant(max_bytes: u64) -> Grant {
    Grant {
        category: GrantCategory::RoutineCleanup,
        recovery_class_ceiling: RecoveryClass::Rebuild,
        max_bytes,
        min_confidence: 500_000,
        path_scope: None,
        expires_at: NOW,
    }
}

const NONE: Answers = Answers { typed: None, checked: None, confirmed: None };

// ---- airlock ---------------------------------------------------------------

#[test]
fn a_plain_airlock_checks_and_asks() {
    let req = AirlockRequest { immediate: false, unsafe_confidence: false, actuation: false };
    let c = candidate("a", 100_000, "manual", 5);
    let next = |a: Answers, confirm: bool, json: bool| {
        airlock_next(&req, &c, &ctx(json), &profile(confirm), None, HOME, &a)
    };
    assert_eq!(next(NONE, true, false), AirlockNext::Check);
    let unsafe_ = Answers { checked: Some(false), ..NONE };
    assert_eq!(next(unsafe_, true, false), AirlockNext::Unsafe);
    assert_eq!(airlock_exit(AirlockNext::Unsafe, 2), 2);
    assert_eq!(airlock_exit(AirlockNext::Unsafe, 3), 3, "the code of the check is passed on");
    let safe = Answers { checked: Some(true), ..NONE };
    assert_eq!(next(safe, true, false), AirlockNext::AskConfirm);
    assert_eq!(next(Answers { confirmed: Some(false), ..safe }, true, false), AirlockNext::Aborted);
    assert_eq!(next(Answers { confirmed: Some(true), ..safe }, true, false), AirlockNext::Airlock);
    assert_eq!(next(safe, false, false), AirlockNext::Airlock);
    assert_eq!(next(safe, true, true), AirlockNext::Airlock);
}

#[test]
fn a_deletion_needs_confidence_or_the_typed_id() {
    let low = candidate("a", 849_999, "manual", 5);
    let sure = candidate("b", 850_000, "manual", 5);
    let mut req = AirlockRequest { immediate: true, unsafe_confidence: false, actuation: false };
    let prof = profile(false);
    assert_eq!(
        airlock_next(&req, &low, &ctx(true), &prof, None, HOME, &NONE),
        AirlockNext::ConfidenceTooLow
    );
    assert_eq!(airlock_exit(AirlockNext::ConfidenceTooLow, 0), 3);
    req.unsafe_confidence = true;
    assert_eq!(airlock_next(&req, &low, &ctx(true), &prof, None, HOME, &NONE), AirlockNext::AskTypedId);
    let wrong = Answers { typed: Some(false), ..NONE };
    assert_eq!(airlock_next(&req, &low, &ctx(true), &prof, None, HOME, &wrong), AirlockNext::NotConfirmed);
    let right = Answers { typed: Some(true), checked: Some(true), confirmed: None };
    assert_eq!(airlock_next(&req, &low, &ctx(true), &prof, None, HOME, &right), AirlockNext::Delete);
    let checked = Answers { checked: Some(true), ..NONE };
    assert_eq!(airlock_next(&req, &sure, &ctx(false), &prof, None, HOME, &checked), AirlockNext::AskConfirm);
}

#[test]
fn a_grant_can_speak_for_a_low_confidence() {
    let req = AirlockRequest { immediate: true, unsafe_confidence: false, actuation: true };
    let ok = candidate("a", 600_000, "rebuild", 5);
    let bad = candidate("b", 600_000, "manual", 5);
    let g = grant(10);
    let prof = profile(false);
    assert_eq!(airlock_next(&req, &ok, &ctx(true), &prof, Some(&g), HOME, &NONE), AirlockNext::Check);
    let checked = Answers { checked: Some(true), ..NONE };
    assert_eq!(airlock_next(&req, &ok, &ctx(true), &prof, Some(&g), HOME, &checked), AirlockNext::Delete);
    assert_eq!(
        airlock_next(&req, &bad, &ctx(true), &prof, Some(&g), HOME, &checked),
        AirlockNext::GrantDenied(Denial::Ceiling)
    );
    let unsafe_ = Answers { checked: Some(false), ..NONE };
    assert_eq!(airlock_next(&req, &ok, &ctx(true), &prof, Some(&g), HOME, &unsafe_), AirlockNext::Unsafe);
}

#[test]
fn receipts_are_honest() {
    let c = candidate("a", 900_000, "auto", 100);
    let r = airlocked_receipt(&c, "a-1", MoveKind::Rename, Some(5), Some(50), NOW);
    assert_eq!(r.actually_freed, None, "a same-volume move frees nothing");
    assert!(r.reversible);
    assert_eq!(r.undo_cmd.as_deref(), Some("diskspace restore a-1"));
    let r = airlocked_receipt(&c, "a-1", MoveKind::CopyRemove, Some(5), Some(50), NOW);
    assert_eq!(r.actually_freed, Some(45));
    let r = deleted_receipt(&c, Some(5), Some(5), NOW);
    assert_eq!(r.actually_freed, None);
    assert!(!r.reversible);
    assert_eq!(r.command, ActionKind::Reclaim);
    assert_eq!(freed_between(None, Some(5)), None);
    assert_eq!(freed_between(Some(9), Some(5)), None);
}

// ---- reclaim ---------------------------------------------------------------

#[test]
fn reclaim_takes_the_best_sure_ones() {
    let all = vec![
        candidate("a", 900_000, "auto", 1),
        candidate("b", 100_000, "auto", 900),
        candidate("c", 850_000, "auto", 3),
        candidate("d", 990_000, "auto", 4),
    ];
    assert_eq!(pick_candidates(&all, false, 1), [3]);
    assert_eq!(pick_candidates(&all, false, 2), [3, 2]);
    assert_eq!(pick_candidates(&all, false, 9), [3, 2, 0]);
    assert_eq!(pick_candidates(&all, true, 3), [1, 3, 2]);
    assert_eq!(typed_consent_needed(&all, true, false), [1]);
    assert!(typed_consent_needed(&all, true, true).is_empty());
    assert!(typed_consent_needed(&all, false, false).is_empty());
}

/// Plays a run: `safe` ids pass their check, ids in `typed` are typed again.
fn play(
    all: &Vec<Candidate>,
    top: usize,
    unsure: bool,
    grant: Option<&Grant>,
    ctx: &Context,
    safe: &[&str],
    confirmed: bool,
    typed: &[&str],
) -> (Vec<String>, ReclaimRun, ReclaimEnd) {
    let mut run = reclaim_begin(all, top, unsure);
    let mut log = Vec::new();
    loop {
        let event = match run.next {
            ReclaimAction::Check(i) => {
                log.push(format!("check {}", all[i].id));
                ReclaimEvent::Checked(safe.contains(&all[i].id.as_str()))
            }
            ReclaimAction::AskConfirm => {
                log.push("confirm".to_string());
                ReclaimEvent::Confirmed(confirmed)
            }
            ReclaimAction::AskTypedId(i) => {
                log.push(format!("type {}", all[i].id));
                ReclaimEvent::Typed(typed.contains(&all[i].id.as_str()))
            }
            ReclaimAction::Delete(i) => {
                log.push(format!("delete {}", all[i].id));
                ReclaimEvent::Deleted(true)
            }
            ReclaimAction::Finish(end) => return (log, run, end),
        };
        reclaim_step(&mut run, event, all, ctx, unsure, grant, HOME);
    }
}

#[test]
fn reclaim_deletes_what_was_checked_and_confirmed() {
    let all = vec![
        candidate("a", 900_000, "auto", 1),
        candidate("b", 900_000, "auto", 2),
        candidate("c", 900_000, "auto", 3),
    ];
    let (log, run, end) = play(&all, 9, false, None, &ctx(false), &["a", "c"], true, &[]);
    assert_eq!(log, ["check c", "check b", "check a", "confirm", "delete c", "delete a"]);
    assert_eq!((run.survivors, run.blocked, run.deleted), (vec![2, 0], vec![1], vec![2, 0]));
    assert_eq!(end, ReclaimEnd::Done);
    assert_eq!(reclaim_exit(end), 0);
    let (log, run, end) = play(&all, 1, false, None, &ctx(true), &["c"], false, &[]);
    assert_eq!(log, ["check c", "delete c"], "no person is asked");
    assert_eq!((run.deleted, end), (vec![2], ReclaimEnd::Done));
    let (log, run, end) = play(&all, 1, false, None, &ctx(false), &["c"], false, &[]);
    assert_eq!(log, ["check c", "confirm"]);
    assert_eq!((run.deleted.len(), end), (0, ReclaimEnd::Aborted));
    assert_eq!(reclaim_exit(end), 0);
}

#[test]
fn reclaim_stops_without_candidates_or_survivors() {
    let low = vec![candidate("a", 100_000, "auto", 1)];
    let (log, _, end) = play(&low, 9, false, None, &ctx(false), &["a"], true, &[]);
    assert!(log.is_empty());
    assert_eq!(end, ReclaimEnd::NoCandidates);
    assert_eq!(reclaim_exit(end), 1);
    let (log, _, end) = play(&low, 9, true, None, &ctx(false), &[], true, &[]);
    assert_eq!(log, ["check a"]);
    assert_eq!(end, ReclaimEnd::AllBlocked);
    assert_eq!(reclaim_exit(end), 2);
    assert_eq!(supply_exit(0), 1);
    assert_eq!(supply_exit(3), 0);
}

#[test]
fn reclaim_has_low_ids_typed_again() {
    let all = vec![
        candidate("a", 900_000, "auto", 9),
        candidate("b", 600_000, "auto", 9),
        candidate("c", 500_000, "auto", 9),
    ];
    let safe = ["a", "b", "c"];
    let (log, run, end) = play(&all, 9, true, None, &ctx(true), &safe, true, &["b", "c"]);
    assert_eq!(
        log,
        ["check a", "check b", "check c", "type b", "type c", "delete a", "delete b", "delete c"]
    );
    assert_eq!((run.deleted.len(), end), (3, ReclaimEnd::Done));
    let (log, run, end) = play(&all, 9, true, None, &ctx(true), &safe, true, &["c"]);
    assert_eq!(log.last().unwrap(), "type b");
    assert_eq!((run.deleted.len(), end), (0, ReclaimEnd::IdMismatch));
}

#[test]
fn reclaim_asks_a_grant_after_the_checks() {
    let all = vec![
        candidate("a", 900_000, "manual", 1_000),
        candidate("b", 600_000, "rebuild", 8),
        candidate("c", 600_000, "rebuild", 7),
        candidate("d", 600_000, "rebuild", 6),
    ];
    let g = grant(12);
    let (log, run, end) = play(&all, 9, true, Some(&g), &ctx(true), &["a", "c", "d"], true, &[]);
    assert_eq!(
        log,
        ["check a", "check b", "check c", "check d", "delete a", "delete c"],
        "what was blocked spends nothing of the grant, and no id is typed"
    );
    assert_eq!(run.acted, [2]);
    assert_eq!(run.denied, [(3, Denial::Budget)]);
    assert_eq!(end, ReclaimEnd::Done);
}

#[test]
fn reclaim_ignores_what_it_did_not_ask() {
    let all = vec![candidate("a", 900_000, "auto", 1)];
    let mut run = reclaim_begin(&all, 1, false);
    reclaim_step(&mut run, ReclaimEvent::Deleted(true), &all, &ctx(true), false, None, HOME);
    assert_eq!(run.next, ReclaimAction::Check(0));
    assert!(run.deleted.is_empty());
}

#[test]
fn a_grant_sifts_a_batch() {
    let all = vec![
        candidate("a", 900_000, "manual", 1_000),
        candidate("b", 600_000, "rebuild", 6),
        candidate("c", 600_000, "rebuild", 5),
        candidate("d", 400_000, "auto", 1),
        candidate("e", 600_000, "auto", 4),
    ];
    let s = sift_by_grant(&all, &grant(10), HOME);
    assert_eq!(s.kept, [0, 1, 4]);
    assert_eq!(s.acted, [1, 4]);
    assert_eq!(s.denied, [(2, Denial::Budget), (3, Denial::Confidence)]);
    assert_eq!(s.spent, 10);
}

#[test]
fn blocked_candidates_say_why() {
    let step = |name: &str, passed: bool, note: &str| CheckStep {
        name: name.into(),
        passed,
        note: note.into(),
    };
    let r = CheckResult::gate(
        "x".into(),
        false,
        0,
        vec![step("a", true, "fine"), step("b", false, "first"), step("c", false, "second")],
    );
    assert_eq!(blocked_note(&r), "first");
    assert_eq!(blocked_note(&CheckResult::gate("x".into(), false, 0, vec![])), "blocked");
}

// ---- the store -------------------------------------------------------------

fn held(id: &str, age_days: i64, size: u64) -> Held {
    Held {
        id: id.into(),
        candidate_id: format!("c-{id}"),
        original_path: format!("/orig/{id}"),
        stored_path: format!("/store/{id}"),
        size_bytes: size,
        stored_at: NOW - age_days * DAY,
        auto_purge_at: NOW + (7 - age_days) * DAY,
    }
}

#[test]
fn restore_finds_by_id_or_path() {
    let v = vec![held("a", 1, 5), held("b", 2, 6), held("c", 8, 7)];
    assert!(matches!(choose_entries(&v, Some("b"), false), RestoreChoice::Positions(p) if p == [1]));
    assert!(matches!(choose_entries(&v, Some("/orig/c"), false), RestoreChoice::Positions(p) if p == [2]));
    assert!(matches!(choose_entries(&v, Some("x"), false), RestoreChoice::NotFound));
    assert!(matches!(choose_entries(&v, None, false), RestoreChoice::NoTarget));
    assert!(matches!(choose_entries(&v, None, true), RestoreChoice::Positions(p) if p == [0, 1, 2]));
    assert!(matches!(choose_entries(&Vec::new(), Some("a"), false), RestoreChoice::Empty));
    assert_eq!(find_entry(&v, "c"), Some(2));
    assert_eq!(find_entry(&v, "/orig/c"), None);
    assert_eq!(total_held(&v), 18);
    assert_eq!(ids(&without_positions(&v, &vec![1])), ["a", "c"]);
    assert_eq!(ids(&at_positions(&v, &vec![2, 0])), ["c", "a"]);
    let r = restored_receipt(&v[0], NOW);
    assert_eq!(r.command, ActionKind::Restore);
    assert_eq!(r.path, "/orig/a");
    assert!(!r.reversible);
}

#[test]
fn purge_by_age_or_by_its_time() {
    let v = vec![held("a", 6, 5), held("b", 7, 6), held("c", 30, 7)];
    assert_eq!(purge_positions(&v, None, NOW), [1, 2]);
    assert_eq!(purge_positions(&v, Some(6), NOW), [0, 1, 2]);
    assert_eq!(purge_positions(&v, Some(8), NOW), [2]);
    assert_eq!(days_left(&v[0], NOW), (1, Tone::Danger));
    assert_eq!(days_left(&v[2], NOW), (0, Tone::Danger));
    assert_eq!(days_left(&held("d", 1, 1), NOW), (6, Tone::Caution));
    assert_eq!(days_left(&held("d", -3, 1), NOW), (10, Tone::Calm));
}

// ---- the ledger ------------------------------------------------------------

fn entry(command: ActionKind, reversible: bool, undo: Option<&str>, freed: Option<u64>) -> Entry {
    Entry {
        ts: NOW,
        command,
        candidate_id: None,
        rule_id: None,
        path: "/x".into(),
        size_bytes: 10,
        df_before: None,
        df_after: None,
        actually_freed: freed,
        reversible,
        undo_cmd: undo.map(|s| s.to_string()),
        rule_confidence: None,
        context: Vec::new(),
    }
}

#[test]
fn undo_takes_the_most_recent_reversible_action() {
    let ledger = vec![
        entry(ActionKind::Restore, false, None, None),
        entry(ActionKind::Doctor, true, None, None),
        entry(ActionKind::Offload, true, Some("maestral excluded remove /x"), None),
        entry(ActionKind::Airlock, true, Some(&undo_command("b-2")), Some(4)),
        entry(ActionKind::Airlock, true, Some(&undo_command("a-1")), Some(3)),
    ];
    assert_eq!(last_reversible(&ledger), Some(2));
    assert!(matches!(
        reversal(&ledger[2]),
        Some(Reversal::Run(argv)) if argv == ["maestral", "excluded", "remove", "/x"]
    ));
    assert!(matches!(reversal(&ledger[3]), Some(Reversal::Restore(id)) if id == "b-2"));
    assert!(reversal(&ledger[0]).is_none());
    assert!(reversal(&ledger[1]).is_none());
    let opened = entry(ActionKind::Offload, true, Some("open the file"), None);
    assert!(matches!(reversal(&opened), Some(Reversal::Open(p)) if p == "/x"));
    assert!(reversal(&entry(ActionKind::Airlock, true, Some("  "), None)).is_none());
    let done = reversed_receipt(&ledger[2], NOW + 1);
    assert_eq!((done.command, done.reversible), (ActionKind::Restore, false));
    assert_eq!((done.path.as_str(), done.size_bytes, done.ts), ("/x", 10, NOW + 1));
    assert_eq!(done.undo_cmd, None);
    let mut gone: Vec<Entry> = Vec::new();
    gone.push(entry(ActionKind::Restore, false, None, None));
    gone.push(entry(ActionKind::Doctor, true, None, None));
    assert_eq!(last_reversible(&gone), None);
    assert_eq!(
        parse_id_from_undo_cmd(Some("diskspace restore xcode-derived-data-13832c01-1777897313 ")).as_deref(),
        Some("xcode-derived-data-13832c01-1777897313")
    );
    assert_eq!(parse_id_from_undo_cmd(Some("  ")), None);
    assert_eq!(parse_id_from_undo_cmd(None), None);
    let totals = receipt_totals(&ledger);
    assert_eq!((totals.touched, totals.freed, totals.restorable), (50, 7, 4));
}

/// Undoes the newest reversible action: the store and the ledger, newest first, after it.
fn undone(ledger: Vec<Entry>, store: Vec<Held>) -> (Vec<Entry>, Vec<Held>) {
    let taken = last_reversible(&ledger).unwrap();
    let id = match reversal(&ledger[taken]) {
        Some(Reversal::Restore(id)) => id,
        _ => panic!("not a restore"),
    };
    let k = find_entry(&store, &id).unwrap();
    let mut after = vec![restored_receipt(&store[k], NOW + 1)];
    after.extend(ledger);
    (after, without_positions(&store, &vec![k]))
}

fn ids(v: &[Held]) -> Vec<&str> {
    v.iter().map(|h| h.id.as_str()).collect()
}

#[test]
fn undo_takes_one_entry_back_and_leaves_the_others() {
    let store = vec![held("a", 1, 5), held("b", 2, 6), held("c", 3, 7)];
    let ledger = vec![
        entry(ActionKind::Purge, false, None, None),
        entry(ActionKind::Airlock, true, Some(&undo_command("b")), None),
        entry(ActionKind::Airlock, true, Some(&undo_command("a")), None),
    ];
    let (ledger, store) = undone(ledger, store);
    assert_eq!(ids(&store), ["a", "c"]);
    assert_eq!(ledger.len(), 4);
    assert_eq!((ledger[0].command, ledger[0].reversible), (ActionKind::Restore, false));
    assert_eq!((ledger[0].path.as_str(), ledger[0].size_bytes), ("/orig/b", 6));
    assert_eq!(last_reversible(&ledger), Some(2), "the restore itself cannot be undone");
    assert_eq!(find_entry(&store, "b"), None, "what was restored is not found again");
}

#[test]
fn undo_gives_back_what_each_command_put_aside() {
    let mut c = candidate("c-x", 900_000, "auto", 9);
    c.path = "/orig/x".into();
    let class = Classification {
        signature: "vm-disk".into(),
        strategy: Strategy::Reclaim,
        reasoning: "test".into(),
        est_savings_bytes: None,
    };
    let step = |mode: &str| PlanStep {
        candidate_id: "c-x".into(),
        rule_id: "rule".into(),
        path: "/orig/x".into(),
        size_bytes: 9,
        confidence: 900_000,
        mode: mode.into(),
        reversible: mode == "airlock",
        pressure: CheckResult::gate("c-x".into(), true, 1_000_000, vec![]),
        consequence_contract: None,
    };
    let undo = Some(undo_command("x"));
    let rename = MoveKind::Rename;
    let receipts = vec![
        airlocked_receipt(&c, "x", rename, None, None, NOW),
        reclaimed_receipt("/orig/x", &class, "x", 9, rename, None, None, NOW),
        step_receipt(&step("airlock"), 7, &undo, Some(rename), NOW),
    ];
    for receipt in receipts {
        let older = entry(ActionKind::Airlock, true, Some(&undo_command("a")), None);
        let store = vec![held("a", 1, 5), held("b", 2, 6), held("x", 0, 9)];
        let (ledger, store) = undone(vec![receipt, older], store);
        assert_eq!(ids(&store), ["a", "b"]);
        assert_eq!((ledger[0].command, ledger[0].path.as_str()), (ActionKind::Restore, "/orig/x"));
    }
    let deleted = step_receipt(&step("immediate"), 7, &None, None, NOW);
    assert!(reversal(&deleted).is_none(), "a deletion is not undone");
    assert_eq!(last_reversible(&vec![deleted]), None);
}

#[test]
fn purges_leave_a_receipt() {
    let r = purged_receipt(&held("a", 9, 5), Some(10), Some(15), NOW);
    assert_eq!(r.command, ActionKind::Purge);
    assert_eq!(r.candidate_id.as_deref(), Some("c-a"));
    assert_eq!((r.path.as_str(), r.size_bytes), ("/orig/a", 5));
    assert_eq!(r.actually_freed, Some(5));
    assert!(!r.reversible);
    assert_eq!(r.undo_cmd, None);
    assert_eq!(purged_receipt(&held("a", 9, 5), None, Some(15), NOW).actually_freed, None);
}

#[test]
fn airlock_takes_an_id_or_a_path() {
    let mut all = vec![candidate("a", 900_000, "auto", 1), candidate("b", 900_000, "auto", 2)];
    all[0].path = "/home/test/b".into();
    all[1].path = "/home/test/x/y".into();
    assert!(matches!(find_target(&all, "b", HOME), Target::Known(1)));
    assert!(matches!(find_target(&all, "/home/test/b", HOME), Target::Known(0)));
    assert!(matches!(find_target(&all, "~/x//y/", HOME), Target::Known(1)));
    assert!(matches!(find_target(&all, "~/z", HOME), Target::Place(p) if p == "/home/test/z"));
    let c = place_candidate("/home/test/Old Files", 7);
    assert!(c.id.starts_with("manual-"));
    assert_eq!((c.rule_id.as_str(), c.path.as_str()), ("manual", "/home/test/Old Files"));
    assert_eq!((c.confidence, c.size_bytes), (0, 7));
    let req = AirlockRequest { immediate: true, unsafe_confidence: false, actuation: false };
    assert_eq!(
        airlock_next(&req, &c, &ctx(true), &profile(false), None, HOME, &NONE),
        AirlockNext::ConfidenceTooLow
    );
}

#[test]
fn ages_and_tones() {
    assert_eq!(age_text(NOW, NOW - 3 * DAY), "3d ago");
    assert_eq!(age_text(NOW, NOW - DAY / 12), "2h ago");
    assert_eq!(age_text(NOW, NOW - 120_000_000_000), "2m ago");
    assert_eq!(age_text(NOW, NOW), "just now");
    assert_eq!(age_text(NOW, NOW + DAY), "just now");
    assert_eq!(command_tone(ActionKind::Purge), Tone::Danger);
    assert_eq!(command_tone(ActionKind::Restore), Tone::Good);
    assert_eq!(command_tone(ActionKind::Doctor), Tone::Caution);
}
