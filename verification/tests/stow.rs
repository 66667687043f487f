use diskspace::classify::{
    act_reclaim, action_hint, classification_report, file_tag, reclaim_id, reclaimed_receipt,
    repacked_receipt, row_labels, run as classify_run, Classification, ClassifyStep, Strategy,
};
use diskspace::explain::expand_target;
use diskspace::history::{last_reversible, reversal, ActionKind, MoveKind, Reversal};
use diskspace::model::{CheckResult, CheckStep};
use diskspace::stow::{
    advisor_action_hint, detect_provider, finder_steps, mechanism_needs_maestral, offload_argv,
    offload_exit, offload_mechanism, offload_receipt, reclaimable_without_deleting, run,
    shown_freed, stow_advisor, AdvisorRow, CloudProvider, CloudSight, OffloadMechanism, StowStep,
    UnruledDir,
};

const HOME: &str = "/home/test";

#[test]
fn classic_dropbox_advises_finder_and_takes_no_action() {
    let f = "/home/test/Dropbox/Photos/vacation.raw";
    let provider = detect_provider(f, HOME, true);
    assert_eq!(provider, CloudProvider::DropboxClassic);
    let mech = offload_mechanism(provider, false);
    assert_eq!(mech, OffloadMechanism::AdviseFinder);
    assert!(offload_argv(mech, f).is_none());
    let sight = CloudSight { provider, maestral: false, local: true };
    for yes in [false, true] {
        let step = run(Some("~/Dropbox/Photos/vacation.raw"), yes, HOME, Some(sight));
        assert!(matches!(&step, StowStep::AdviseFinder(p) if p == f), "advise NEVER acts");
    }
    let steps = finder_steps();
    assert!(steps.iter().any(|s| s.contains("online-only")));
}

#[test]
fn icloud_path_constructs_brctl_evict_argv_not_executed() {
    let f = "/home/test/Library/Mobile Documents/com~apple~CloudDocs/Big/render.mov";
    let provider = detect_provider(f, HOME, false);
    assert_eq!(provider, CloudProvider::ICloud);
    let mech = offload_mechanism(provider, false);
    assert_eq!(mech, OffloadMechanism::ICloudEvict);
    let argv = offload_argv(mech, f).expect("evict is actionable");
    assert_eq!(argv[0], "brctl");
    assert_eq!(argv[1], "evict");
    assert_eq!(argv[2], f);
}

#[test]
fn classic_dropbox_with_maestral_constructs_exclude_argv() {
    let f = "/home/test/Dropbox/Archive/old.zip";
    let provider = detect_provider(f, HOME, true);
    assert_eq!(provider, CloudProvider::DropboxClassic);
    let mech = offload_mechanism(provider, true);
    assert_eq!(mech, OffloadMechanism::MaestralExclude);
    let argv = offload_argv(mech, f).expect("exclude is actionable");
    assert_eq!(argv, vec!["maestral", "excluded", "add", f]);
}

#[test]
fn non_cloud_path_is_not_applicable() {
    let f = "/home/test/Code/project/target/build.o";
    let provider = detect_provider(f, HOME, true);
    assert_eq!(provider, CloudProvider::NotCloud);
    let mech = offload_mechanism(provider, false);
    assert_eq!(mech, OffloadMechanism::NotApplicable);
    assert!(offload_argv(mech, f).is_none());
    let sight = CloudSight { provider, maestral: true, local: true };
    assert!(matches!(run(Some(f), true, HOME, Some(sight)), StowStep::NotApplicable(_)));
}

#[test]
fn advisor_rows_total_reclaimable_and_hint_per_provider() {
    let icf = "/home/test/Library/Mobile Documents/com~apple~CloudDocs/A/a.mov";
    let dbf = "/home/test/Dropbox/B/b.raw";
    let rows = vec![
        AdvisorRow {
            path: icf.into(),
            provider: detect_provider(icf, HOME, true),
            mechanism: OffloadMechanism::ICloudEvict,
            bytes: 50 * 1024,
        },
        AdvisorRow {
            path: dbf.into(),
            provider: detect_provider(dbf, HOME, true),
            mechanism: OffloadMechanism::AdviseFinder,
            bytes: 30 * 1024,
        },
    ];
    assert_eq!(
        reclaimable_without_deleting(&rows),
        Some(80 * 1024),
        "advisor totals reclaimable-without-deleting"
    );
    assert_eq!(rows[0].provider, CloudProvider::ICloud);
    assert_eq!(rows[1].provider, CloudProvider::DropboxClassic);
    let ic_hint = advisor_action_hint(&rows[0]);
    assert!(ic_hint.contains("brctl evict"), "iCloud hint runs evict: {ic_hint}");
    assert!(ic_hint.contains("--yes"));
    let db_hint = advisor_action_hint(&rows[1]);
    assert!(
        db_hint.contains("Make online-only") && !db_hint.contains("brctl"),
        "classic Dropbox hint is advice-only: {db_hint}"
    );
}

#[test]
fn stow_expand_tilde_handles_home_and_absolute() {
    let home = "/tmp/fake-stow-home";
    assert_eq!(expand_target("~/Dropbox/x", home), "/tmp/fake-stow-home/Dropbox/x");
    assert_eq!(expand_target("/abs/p", home), "/abs/p");
}

#[test]
fn providers_by_their_roots() {
    assert_eq!(
        detect_provider("/home/test/Library/CloudStorage/Dropbox-Acme/x", HOME, false),
        CloudProvider::DropboxFileProvider
    );
    assert_eq!(
        detect_provider("/home/test/Library/CloudStorage/GoogleDrive/x", HOME, false),
        CloudProvider::NotCloud
    );
    assert_eq!(
        detect_provider("/home/test/Library/CloudStorage", HOME, false),
        CloudProvider::NotCloud
    );
    assert_eq!(detect_provider("/home/test/Dropbox/x", HOME, false), CloudProvider::NotCloud);
    assert_eq!(detect_provider("/home/test/Dropboxes/x", HOME, true), CloudProvider::NotCloud);
    assert!(mechanism_needs_maestral(CloudProvider::DropboxClassic));
    assert!(!mechanism_needs_maestral(CloudProvider::ICloud));
    assert_eq!(
        offload_mechanism(CloudProvider::DropboxFileProvider, true),
        OffloadMechanism::AdviseFragileEvict
    );
}

#[test]
fn stow_acts_only_with_consent_and_local_bytes() {
    let sight = CloudSight { provider: CloudProvider::ICloud, maestral: false, local: true };
    assert!(matches!(run(None, true, HOME, None), StowStep::Advisor));
    assert!(matches!(run(Some("~/x"), true, HOME, None), StowStep::NotFound(p) if p == "/home/test/x"));
    assert!(matches!(run(Some("/a"), false, HOME, Some(sight)), StowStep::Suggest(_, _)));
    let step = run(Some("/a"), true, HOME, Some(sight));
    assert!(matches!(&step, StowStep::Offload(_, argv) if argv == &["brctl", "evict", "/a"]));
    let gone = CloudSight { local: false, ..sight };
    assert!(matches!(run(Some("/a"), true, HOME, Some(gone)), StowStep::AlreadyOffloaded(_)));
    let fragile = CloudSight { provider: CloudProvider::DropboxFileProvider, ..sight };
    assert!(matches!(run(Some("/a"), true, HOME, Some(fragile)), StowStep::AdviseFragileEvict(_)));
    assert_eq!(offload_exit(true), 0);
    assert_eq!(offload_exit(false), 2);
    assert_eq!(shown_freed(Some(5), Some(9), 100), 4);
    assert_eq!(shown_freed(Some(9), Some(9), 100), 100);
}

#[test]
fn offload_receipts_are_reversible() {
    let r = offload_receipt(
        "/a",
        CloudProvider::DropboxClassic,
        OffloadMechanism::MaestralExclude,
        100,
        Some(10),
        Some(70),
        5,
    );
    assert_eq!(r.command, ActionKind::Offload);
    assert!(r.reversible);
    assert_eq!(r.actually_freed, Some(60));
    assert_eq!(r.undo_cmd.as_deref(), Some("maestral excluded remove /a"));
    assert_eq!(r.rule_id.as_deref(), Some("stow:dropbox-classic"));
    assert_eq!(r.context[2], ("via".to_string(), "stow".to_string()));
    let r = offload_receipt("/a", CloudProvider::ICloud, OffloadMechanism::ICloudEvict, 1, None, None, 5);
    assert_eq!(r.undo_cmd.as_deref(), Some("open the file to re-download it from iCloud"));
    assert_eq!(r.actually_freed, None);
}

fn unruled(path: &str, offload: bool, provider: CloudProvider, local: bool, bytes: u128) -> UnruledDir {
    UnruledDir { path: path.into(), offload, provider, maestral: true, local, bytes }
}

#[test]
fn advisor_keeps_what_can_be_offloaded_largest_first() {
    let dirs = vec![
        unruled("/a", true, CloudProvider::ICloud, true, 5),
        unruled("/b", false, CloudProvider::ICloud, true, 50),
        unruled("/c", true, CloudProvider::NotCloud, true, 60),
        unruled("/d", true, CloudProvider::DropboxClassic, true, 1 << 70),
        unruled("/e", true, CloudProvider::ICloud, false, 70),
        unruled("/f", true, CloudProvider::DropboxFileProvider, true, 5),
    ];
    let rows = stow_advisor(&dirs);
    let paths: Vec<&str> = rows.iter().map(|r| r.path.as_str()).collect();
    assert_eq!(paths, ["/d", "/a", "/f"]);
    assert_eq!(rows[0].mechanism, OffloadMechanism::MaestralExclude);
    assert!(rows[0].mechanism.is_actionable());
    assert!(!rows[2].mechanism.is_actionable());
    assert_eq!(reclaimable_without_deleting(&rows), Some((1 << 70) + 10));
    let too_much = vec![
        AdvisorRow { path: "/x".into(), provider: CloudProvider::ICloud, mechanism: OffloadMechanism::ICloudEvict, bytes: u128::MAX },
        AdvisorRow { path: "/y".into(), provider: CloudProvider::ICloud, mechanism: OffloadMechanism::ICloudEvict, bytes: 1 },
    ];
    assert_eq!(reclaimable_without_deleting(&too_much), None);
}

// ---- classify --------------------------------------------------------------

fn classified(signature: &str, strategy: Strategy, est: Option<u64>) -> Classification {
    Classification {
        signature: signature.into(),
        strategy,
        reasoning: "test".into(),
        est_savings_bytes: est,
    }
}

#[test]
fn repack_hint_names_git_gc() {
    let hint = action_hint(Strategy::Repack, "/x/Clef/.git/objects/pack");
    assert!(hint.contains("git gc"), "the repack action hint names git gc: {hint}");
}

#[test]
fn offload_hint_recommends_stow() {
    let hint = action_hint(Strategy::Offload, "/x/checkpoints/models--ACE-Step--x/blobs");
    assert!(
        hint.starts_with("recommended:") && hint.contains("diskspace stow"),
        "offload only RECOMMENDS stow, never claims to offload: {hint}"
    );
}

#[test]
fn reclaim_hint_names_the_airlock() {
    let hint = action_hint(Strategy::Reclaim, "/x/Group Containers/HUAQ24HBR6.dev.orbstack/data");
    assert!(
        hint.contains("airlock"),
        "reclaim hint names the reversible airlock: {hint}"
    );
}

#[test]
fn suggest_json_has_signature_strategy_action() {
    let c = classified("git-pack", Strategy::Repack, Some(50 * 1024));
    let v = classification_report("/x/repo/.git/objects/pack", &c, "suggest", None);
    assert_eq!(v.signature, "git-pack");
    assert_eq!(v.strategy, "repack");
    assert!(v.action.contains("git gc"));
    assert!(
        v.est_savings_bytes.is_some(),
        "a GitPack suggest reports an est-savings estimate"
    );
    assert_eq!(v.status, "suggest");
    assert_eq!(v.note, None);
}

#[test]
fn classify_expand_tilde_handles_home_and_absolute() {
    let home = "/tmp/fake-home";
    assert_eq!(expand_target("~/Code/x", home), "/tmp/fake-home/Code/x");
    assert_eq!(expand_target("/abs/path", home), "/abs/path");
}

#[test]
fn file_tag_is_sanitized() {
    assert_eq!(file_tag("/a/b/My Repo.git"), "My-Repo-git");
    assert_eq!(file_tag("/"), "dir");
    assert_eq!(reclaim_id("/a/é"), "classify-reclaim--");
}

#[test]
fn classify_dispatches_by_strategy() {
    let step = |yes: bool, s: Strategy| {
        classify_run(Some("~/d"), yes, HOME, Some(&classified("x", s, None)))
    };
    assert!(matches!(classify_run(None, true, HOME, None), ClassifyStep::Table));
    assert!(matches!(classify_run(Some("~/d"), true, HOME, None), ClassifyStep::NotFound(p) if p == "/home/test/d"));
    assert!(matches!(step(false, Strategy::Reclaim), ClassifyStep::Suggest(_)));
    assert!(matches!(step(true, Strategy::Repack), ClassifyStep::Repack(_)));
    assert!(matches!(step(true, Strategy::Reclaim), ClassifyStep::Reclaim(_)));
    assert!(matches!(step(true, Strategy::Offload), ClassifyStep::OfferStow(_)));
    assert!(matches!(step(true, Strategy::Review), ClassifyStep::Leave(_)));
    assert!(matches!(step(true, Strategy::Keep), ClassifyStep::Leave(_)));
}

#[test]
fn classified_paths_are_checked_and_recorded() {
    let gate = |safe| CheckResult::gate("x".into(), safe, 1_000_000, vec![]);
    assert_eq!(act_reclaim(&gate(true)), Ok(()));
    assert_eq!(act_reclaim(&gate(false)), Err(2));
    let policy = CheckStep { name: "profile policy".into(), passed: false, note: "x".into() };
    assert_eq!(act_reclaim(&CheckResult::gate("x".into(), false, 0, vec![policy])), Err(3));
    let c = classified("vm-disk", Strategy::Reclaim, None);
    let r = reclaimed_receipt("/a/data", &c, "e1", 7, MoveKind::Rename, Some(1), Some(9), 3);
    assert_eq!(r.candidate_id.as_deref(), Some("classify-reclaim-data"));
    assert_eq!(r.rule_id.as_deref(), Some("classify:vm-disk"));
    assert_eq!(r.actually_freed, None, "a rename frees nothing");
    assert_eq!(r.undo_cmd.as_deref(), Some("diskspace restore e1"));
    let r = reclaimed_receipt("/a/data", &c, "e1", 7, MoveKind::CopyRemove, Some(1), Some(9), 3);
    assert_eq!(r.actually_freed, Some(8));
    let r = repacked_receipt("/a/repo", &c, 7, Some(1), Some(9), 3);
    assert_eq!((r.command, r.reversible, r.undo_cmd), (ActionKind::Repack, false, None));
    assert_eq!((r.path.as_str(), r.size_bytes, r.actually_freed), ("/a/repo", 7, Some(8)));
    assert_eq!(row_labels(None), ("unknown".to_string(), "review"));
    assert_eq!(row_labels(Some(&c)), ("vm-disk".to_string(), "reclaim"));
}

#[test]
fn offloads_can_be_undone() {
    let receipt = |m: OffloadMechanism| {
        offload_receipt("/h/Dropbox/a b", CloudProvider::DropboxClassic, m, 9, None, None, 5)
    };
    let synced = receipt(OffloadMechanism::MaestralExclude);
    assert_eq!(last_reversible(&vec![receipt(OffloadMechanism::MaestralExclude)]), Some(0));
    assert!(matches!(
        reversal(&synced),
        Some(Reversal::Run(argv)) if argv == ["maestral", "excluded", "remove", "/h/Dropbox/a b"]
    ));
    let evicted = receipt(OffloadMechanism::ICloudEvict);
    assert!(matches!(reversal(&evicted), Some(Reversal::Open(p)) if p == "/h/Dropbox/a b"));
}
