use diskspace::agent_surface::{contract_from_consequences, enrich_candidate, reference_url, VERSION};
use diskspace::model::{Candidate, Category, Consequences, Metrics, Rule};

fn cons(recovery: &str) -> Consequences {
    Consequences {
        recovery: recovery.to_string(),
        rebuild_seconds: Some(120),
        impact: "rebuilt on next run".into(),
        recovery_cmd: Some("npm install".into()),
    }
}

fn rule_with(id: &str, url: Option<&str>, c: Option<Consequences>) -> Rule {
    Rule {
        id: id.to_string(),
        category: "dev-artifact".into(),
        path_pattern: "~/x".into(),
        domain: None,
        base_confidence: 900_000,
        reason: "test".into(),
        exclude_if_recent_access_days: None,
        exclude_if_recent_modified_days: None,
        consequences: c,
        reference_url: url.map(|s| s.to_string()),
    }
}

fn candidate(path: &str, c: Option<Consequences>) -> Candidate {
    Candidate {
        id: "rule-abc".into(),
        rule_id: "rule".into(),
        path: path.into(),
        size_bytes: 1024,
        category: Category::DevArtifact,
        confidence: 900_000,
        reason: "test".into(),
        domain: None,
        modified: None,
        accessed: None,
        consequences: c,
        consequence_contract: None,
        metrics: None,
        reference_url: None,
    }
}

#[test]
fn contract_maps_recovery_class_verbatim() {
    for recovery in [
        "auto",
        "redownload",
        "rebuild",
        "recreate",
        "manual",
        "irreversible",
    ] {
        let k = contract_from_consequences(&cons(recovery), "node_modules", None);
        assert_eq!(
            k.recovery_class, recovery,
            "recovery_class must mirror Consequences.recovery verbatim"
        );
        assert_eq!(k.recovery_cost_seconds, Some(120));
        assert_eq!(k.impact, "rebuilt on next run");
        assert_eq!(k.recovery_cmd.as_deref(), Some("npm install"));
    }
}

#[test]
fn reference_url_uses_rule_url_when_present() {
    let u = reference_url("node_modules", Some("https://docs.example/rule"));
    assert_eq!(u, "https://docs.example/rule");
}

#[test]
fn reference_url_synthesizes_release_tagged_fallback() {
    let u = reference_url("node_modules", None);
    let expected = format!(
        "https://github.com/tymrtn/diskspace/blob/v{}/rules/builtin.yaml#node_modules",
        VERSION
    );
    assert_eq!(u, expected);
    // The tag must be the exact release version, never a moving branch.
    assert!(u.contains(&format!("/blob/v{}/", VERSION)));
    assert!(!u.contains("/blob/main/"));
    assert_eq!(VERSION, "0.9.0");
}

#[test]
fn reference_url_empty_rule_url_falls_back() {
    // An empty string is treated as "no URL" and synthesizes the fallback.
    let u = reference_url("foo", Some(""));
    assert!(u.contains("/rules/builtin.yaml#foo"));
}

#[test]
fn contract_carries_reference_url() {
    let with_url = contract_from_consequences(&cons("rebuild"), "foo", Some("https://x/y"));
    assert_eq!(with_url.reference_url.as_deref(), Some("https://x/y"));

    let synthesized = contract_from_consequences(&cons("rebuild"), "foo", None);
    assert!(synthesized
        .reference_url
        .as_deref()
        .unwrap()
        .contains("/rules/builtin.yaml#foo"));
}

#[test]
fn enrich_populates_contract_and_reference_url() {
    let mut c = candidate("/tmp/does-not-matter", Some(cons("redownload")));
    let rule = rule_with("rule", None, Some(cons("redownload")));

    enrich_candidate(&mut c, &rule, None);

    // reference_url is always set.
    assert!(c.reference_url.is_some());
    assert!(c
        .reference_url
        .as_deref()
        .unwrap()
        .contains("/rules/builtin.yaml#rule"));

    // consequence_contract derived from the candidate's own consequences.
    let k = c.consequence_contract.expect("contract present");
    assert_eq!(k.recovery_class, "redownload");
    assert_eq!(k.impact, "rebuilt on next run");
}

#[test]
fn enrich_emits_no_metrics_when_series_has_no_signal() {
    let mut c = candidate(
        "/tmp/diskspace-no-series-ever-3f9a2c/never",
        Some(cons("redownload")),
    );
    let rule = rule_with("rule", None, Some(cons("redownload")));

    // A measurement without any sample behind it is what an empty series gives.
    enrich_candidate(&mut c, &rule, Some(Metrics::default()));

    assert!(
        c.metrics.is_none(),
        "an all-None metrics (no series) must be dropped"
    );
}

#[test]
fn metrics_has_no_signal_detects_empty_vs_populated() {
    assert!(
        Metrics::default().has_no_signal(),
        "the default (all-None, 0.0 confidence) carries no signal"
    );
    // Any single populated field flips it.
    let m = Metrics {
        staleness_days: Some(3),
        ..Default::default()
    };
    assert!(!m.has_no_signal(), "a populated field is a real signal");
    let m2 = Metrics {
        metric_confidence: 600_000,
        ..Default::default()
    };
    assert!(
        !m2.has_no_signal(),
        "a positive confidence means contributing samples exist"
    );
}

#[test]
fn enrich_leaves_contract_none_when_no_consequences() {
    let mut c = candidate("/tmp/no-cons", None);
    let rule = rule_with("rule", None, None);

    enrich_candidate(&mut c, &rule, None);

    assert!(
        c.consequence_contract.is_none(),
        "no consequences → no contract"
    );
    // reference_url is still set even without consequences.
    assert!(c.reference_url.is_some());
}

#[test]
fn enrich_does_not_change_score_inputs() {
    let mut c = candidate("/tmp/x", Some(cons("rebuild")));
    let before_size = c.size_bytes;
    let before_conf = c.confidence;
    let before_score = c.score();
    let rule = rule_with("rule", None, Some(cons("rebuild")));

    enrich_candidate(&mut c, &rule, None);

    assert_eq!(c.size_bytes, before_size);
    assert_eq!(c.confidence, before_conf);
    assert_eq!(c.score(), before_score, "enrichment must not change score");
    assert_eq!(before_score, 1024 * 900_000);
}

#[test]
fn enrich_keeps_a_real_measurement() {
    let mut c = candidate("/tmp/x", None);
    let rule = rule_with("rule", Some("https://x/y"), None);
    let m = Metrics {
        staleness_days: Some(40),
        metric_confidence: 500_000,
    };
    enrich_candidate(&mut c, &rule, Some(m));
    assert_eq!(c.metrics, Some(m));
    assert_eq!(c.reference_url.as_deref(), Some("https://x/y"));
}
