use diskspace::selfcheck::{
    failed_count, g6_home_scope_no_sudo, run, run_measurement_gate, AppendTrial, CostTrial,
    GrowthTrial, KeyedSample, Named, Provenance, RenameTrial, Rollups, Trials,
};

fn named(name: &str, text: &str) -> Named {
    Named { name: name.into(), text: text.into() }
}

fn healthy() -> Trials {
    let data = "/home/test/.diskspace";
    let raw: String = (0..120).map(|i| format!("{{\"line\":{i}}}\n")).collect();
    Trials {
        provenance: Ok(Provenance {
            full: 1_000_000,
            restat: 850_000,
            incremental: 600_000,
            weight_full: 1_000_000,
            weight_restat: 850_000,
            weight_incremental: 600_000,
        }),
        rollups: Ok(Rollups {
            first: vec![1, 2],
            first_mark: vec![3],
            second: vec![1, 2],
            second_mark: vec![3],
            recomputed: vec![1, 2],
        }),
        growth: Ok(GrowthTrial { before: 8192, after: 131_072, restat: true, widened: false }),
        rename: Ok(RenameTrial {
            same_key: true,
            read_as_reuse: false,
            renamed: (16777220, 99),
            vanished: (16777220, 7777),
            samples: vec![
                KeyedSample { inode: Some((16777220, 99)), tombstone: false },
                KeyedSample { inode: Some((16777220, 99)), tombstone: false },
                KeyedSample { inode: Some((16777220, 7777)), tombstone: true },
            ],
        }),
        append: Ok(AppendTrial { expected: 120, raw, parsed: 120 }),
        data_dir: data.into(),
        paths: vec![
            named("series", "/home/test/.diskspace/series.jsonl"),
            named("series.daily", "/home/test/.diskspace/series.daily.jsonl"),
            named("series.rollup.hw", "/home/test/.diskspace/series.rollup.hw"),
            named("df_series", "/home/test/.diskspace/df_series.jsonl"),
            named("tick_state", "/home/test/.diskspace/tick_state.json"),
            named("history", "/home/test/.diskspace/history.jsonl"),
        ],
        sources: vec![named("series.rs", "// never sudo\n"), named("metrics.rs", "fn x() {}\n")],
        cost: Ok(CostTrial { widened: false, elapsed_nanos: 3_000_000, elapsed: "3ms".into() }),
    }
}

#[test]
fn measurement_gate_passes_on_healthy_setup() {
    let results = run_measurement_gate(&Ok(healthy()));
    assert_eq!(results.len(), 7, "G1–G7 = seven criteria");
    for c in &results {
        assert!(
            c.pass,
            "criterion {} failed in selfcheck: {}",
            c.criterion, c.detail
        );
    }
    assert!(results.iter().all(|c| c.pass), "overall pass");
}

#[test]
fn gate_emits_g1_through_g7_in_order() {
    let results = run_measurement_gate(&Ok(healthy()));
    let ids: Vec<&str> = results.iter().map(|c| c.criterion.as_str()).collect();
    assert_eq!(ids, ["G1", "G2", "G3", "G4", "G5", "G6", "G7"]);
}

#[test]
fn details_of_a_healthy_setup() {
    let outcome = run(&Ok(healthy()));
    assert!(outcome.overall);
    assert_eq!(outcome.exit_code, 0);
    let d: Vec<&str> = outcome.results.iter().map(|c| c.detail.as_str()).collect();
    assert_eq!(
        d[0],
        "confidence matches documented weighting and is monotonic (Full=1.00 > Restat=0.85 > Incremental=0.60)"
    );
    assert!(d[2].contains("(8192→131072 bytes)"));
    assert!(d[4].starts_with("120 concurrent appends all parsed"));
    assert!(d[5].starts_with("all 6 measurement paths resolve under data_dir() (/home/test/.diskspace)"));
    assert!(d[6].contains("completed in 3ms (< 2s budget)"));
}

fn failing(change: impl Fn(&mut Trials)) -> (String, String) {
    let mut t = healthy();
    change(&mut t);
    let outcome = run(&Ok(t));
    assert!(!outcome.overall);
    assert_eq!(outcome.exit_code, 1);
    assert_eq!(failed_count(&outcome.results), 1);
    let c = outcome.results.iter().find(|c| !c.pass).unwrap();
    (c.criterion.clone(), c.detail.clone())
}

#[test]
fn each_criterion_fails_for_its_own_reason() {
    let (id, d) = failing(|t| t.provenance.as_mut().unwrap().restat = 123_450);
    assert_eq!(id, "G1");
    assert_eq!(
        d,
        "weighting/monotonicity mismatch: Full=1.0000 (want 1.0000), Restat=0.1234 (want 0.8500), Incremental=0.6000 (want 0.6000)"
    );
    assert_eq!(failing(|t| t.provenance = Err("read series failed: x".into())).1, "read series failed: x");
    let (id, d) = failing(|t| t.rollups.as_mut().unwrap().second_mark.push(1));
    assert_eq!((id.as_str(), d.as_str()), ("G2", "re-running the rollup was NOT idempotent"));
    let (_, d) = failing(|t| t.rollups.as_mut().unwrap().recomputed[0] = 9);
    assert_eq!(d, "rollup is NOT fully recomputable from raw series");
    let (id, d) = failing(|t| t.growth.as_mut().unwrap().widened = true);
    assert_eq!(id, "G3");
    assert!(d.starts_with("INVARIANT VIOLATION"));
    let (_, d) = failing(|t| t.growth.as_mut().unwrap().restat = false);
    assert_eq!(d, "Tier B did NOT emit a Restat for the grown file");
    let (_, d) = failing(|t| t.growth.as_mut().unwrap().after = 8192);
    assert_eq!(d, "file did not grow on disk — test setup invalid");
    let (id, d) = failing(|t| t.rename.as_mut().unwrap().same_key = false);
    assert_eq!((id.as_str(), d.as_str()), ("G4", "rename did not preserve the (dev, ino) continuity key"));
    let (_, d) = failing(|t| t.rename.as_mut().unwrap().read_as_reuse = true);
    assert_eq!(d, "rename's forward ctime bump was misread as inode reuse");
    let (_, d) = failing(|t| t.rename.as_mut().unwrap().samples[0].tombstone = true);
    assert_eq!(d, "rename did NOT read as one continuous series");
    let (_, d) = failing(|t| t.rename.as_mut().unwrap().samples[2].tombstone = false);
    assert_eq!(d, "tombstone marker did not round-trip");
    let (id, d) = failing(|t| t.append.as_mut().unwrap().raw.push_str("  \ntorn"));
    assert_eq!((id.as_str(), d.as_str()), ("G5", "expected 120 lines, got raw=121 parsed=120"));
    let (id, d) = failing(|t| t.cost.as_mut().unwrap().elapsed_nanos = 2_000_000_000);
    assert_eq!((id.as_str(), d.as_str()), ("G7", "pruned tick took 3ms, over the 2s budget"));
    let (_, d) = failing(|t| t.cost.as_mut().unwrap().widened = true);
    assert_eq!(d, "expected an incremental tick, but it widened to a full walk");
}

#[test]
fn paths_and_sources_are_held_to_their_scope() {
    let c = g6_home_scope_no_sudo(
        "/home/test/.diskspace",
        &vec![named("series", "/home/test/.diskspace2/series.jsonl")],
        &Vec::new(),
    );
    assert!(!c.pass);
    assert_eq!(
        c.detail,
        "series path /home/test/.diskspace2/series.jsonl does not resolve under data_dir() /home/test/.diskspace"
    );
    let c = g6_home_scope_no_sudo("/d", &Vec::new(), &vec![named("a.rs", "x"), named("b.rs", "unsafe { seteuid(0) }")]);
    assert_eq!(
        c.detail,
        "PRIVILEGE/ SUDO REFERENCE in b.rs: `seteuid` — the measurement layer must use no privilege-escalation APIs"
    );
}

#[test]
fn without_a_scratch_dir_nothing_passes() {
    let outcome = run(&Err("disk full".into()));
    assert!(!outcome.overall);
    assert_eq!(outcome.results.len(), 1);
    assert_eq!(outcome.results[0].criterion, "G0");
    assert_eq!(outcome.results[0].detail, "could not create temp scratch dir: disk full");
}
