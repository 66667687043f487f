use diskspace::model::{Category, Context, ScannedEntry};
use diskspace::profile_cmd::{
    default_profile_toml, parse_assignment, read_scalar, set_toml_key, Scalar, SetError,
};
use diskspace::scan::{bar_scale, category_summary, scan_cache_path};
use diskspace::top::{
    downsample, filled_cells, free_window, outlook, BurnRate, DfSample, Outlook,
};
use diskspace::welcome::{disk_marker, humanize_age, percent_free, scan_age_label, DiskMarker};
use diskspace::wizard::{
    active_labels, domain_choices, domains_from, parse_selection, should_run,
};

// ---- the profile -----------------------------------------------------------

#[test]
fn assignments_are_cut_at_the_first_equals() {
    assert_eq!(parse_assignment("a.b=c=d").unwrap(), ("a.b".to_string(), "c=d".to_string()));
    assert_eq!(parse_assignment("=").unwrap(), (String::new(), String::new()));
    assert_eq!(parse_assignment("ab").unwrap_err(), "Expected key=value, got: ab");
}

#[test]
fn scalars_by_their_reading() {
    assert!(matches!(read_scalar("true"), Scalar::Bool(true)));
    assert!(matches!(read_scalar("false"), Scalar::Bool(false)));
    assert!(matches!(read_scalar("-7"), Scalar::Integer(-7)));
    assert!(matches!(read_scalar("9223372036854775808"), Scalar::Float(_)));
    assert!(matches!(read_scalar("0.5"), Scalar::Float(_)));
    assert!(matches!(read_scalar("1e3"), Scalar::Float(_)));
    assert!(matches!(read_scalar("nan"), Scalar::Float(_)));
    assert!(matches!(read_scalar("True"), Scalar::Text(_)));
    assert!(matches!(read_scalar(" 7"), Scalar::Text(_)));
    assert!(matches!(read_scalar(""), Scalar::Text(_)));
}

#[test]
fn a_key_is_set_in_place() {
    let content = "# mine\n[preferences]\nairlock_retention_days = 30 # days\n";
    assert_eq!(
        set_toml_key(content, "preferences.airlock_retention_days", "7").unwrap(),
        "# mine\n[preferences]\nairlock_retention_days = 7\n"
    );
    assert_eq!(
        set_toml_key(content, "preferences.min_candidate_size_gb", "0.5").unwrap(),
        "# mine\n[preferences]\nairlock_retention_days = 30 # days\nmin_candidate_size_gb = 0.5\n"
    );
    assert_eq!(set_toml_key("", "focus", "web").unwrap(), "focus = \"web\"\n");
    let deep = set_toml_key("", "domains.ios_development.active", "false").unwrap();
    assert_eq!(deep, "domains = { ios_development = { active = false } }\n");
    let nested = "[domains]\ndocker = { active = true } # mine\n";
    assert_eq!(
        set_toml_key(nested, "domains.docker.active", "false").unwrap(),
        "[domains]\ndocker = { active = false } # mine\n"
    );
    assert_eq!(set_toml_key("a = 1\n", "a", "nan").unwrap(), "a = nan\n");
    assert_eq!(set_toml_key("a = 1\n", "b", "-3").unwrap(), "a = 1\nb = -3\n");
}

#[test]
fn keys_that_cannot_be_set() {
    assert!(matches!(set_toml_key("= nonsense", "a", "1"), Err(SetError::NotToml(_))));
    assert!(matches!(
        set_toml_key("", "a.b.c.d", "1"),
        Err(SetError::TooDeep(e)) if e == "Key too deep (max 3 levels): a.b.c.d"
    ));
    assert!(matches!(set_toml_key("a = 1\n", "a.b", "1"), Err(SetError::NotATable)));
    assert!(matches!(set_toml_key("a = [1]\n", "a.b.c", "1"), Err(SetError::NotATable)));
    assert!(matches!(set_toml_key("= nonsense", "a.b.c.d", "1"), Err(SetError::NotToml(_))));
}

#[test]
fn the_default_profile_can_be_edited() {
    let text = default_profile_toml();
    assert!(text.starts_with("# disk-advisor profile\n"));
    let edited = set_toml_key(text, "preferences.confirm_before_airlock", "false").unwrap();
    assert!(edited.contains("confirm_before_airlock = false"));
    assert!(edited.contains("airlock_retention_days = 7\n"));
}

// ---- the welcome -----------------------------------------------------------

#[test]
fn humanize_age_buckets() {
    assert_eq!(humanize_age(5), "just now");
    assert_eq!(humanize_age(305), "5m ago");
    assert_eq!(humanize_age(7200), "2h ago");
    assert_eq!(humanize_age(3 * 86_400), "3d ago");
    assert_eq!(humanize_age(-10), "just now");
}

#[test]
fn scan_age_and_markers() {
    let now = 1_700_000_000_000_000_000;
    assert_eq!(scan_age_label(Some(now - 7_200_999_999_999), now).as_deref(), Some("scanned 2h ago"));
    assert_eq!(scan_age_label(None, now), None);
    assert_eq!(disk_marker(0, 0), DiskMarker::Full);
    assert_eq!(disk_marker(49, 1000), DiskMarker::Full);
    assert_eq!(disk_marker(50, 1000), DiskMarker::Low);
    assert_eq!(disk_marker(100, 1000), DiskMarker::Fine);
    assert_eq!(percent_free(125, 1000), 12);
    assert_eq!(percent_free(135, 1000), 14);
    assert_eq!(percent_free(136, 1000), 14);
    assert_eq!(percent_free(5, 0), 0);
}

// ---- the wizard ------------------------------------------------------------

#[test]
fn wizard_answers() {
    assert_eq!(parse_selection(" 1, 3 ,x,11,0,-2,+4,3\n"), [0, 2, 3, 2]);
    assert_eq!(parse_selection(""), Vec::<usize>::new());
    assert_eq!(active_labels(&vec![0, 2]), "Web development, Android");
    assert_eq!(active_labels(&Vec::new()), "");
    let domains = domains_from(&vec![6]);
    assert_eq!(domains.len(), domain_choices().len());
    for d in &domains {
        assert_eq!(d.active, d.name == "docker");
    }
}

#[test]
fn wizard_runs_for_a_person_without_a_profile() {
    let ctx = Context { json: false, yes: false, no_color: false, verbose: false, quiet: false };
    assert!(should_run(&ctx, true, false));
    assert!(!should_run(&ctx, false, false));
    assert!(!should_run(&ctx, true, true));
    assert!(!should_run(&Context { json: true, ..ctx }, true, false));
    assert!(!should_run(&Context { yes: true, ..ctx }, true, false));
}

// ---- the scan --------------------------------------------------------------

fn entry(category: Category, size: u64) -> ScannedEntry {
    ScannedEntry { path: "/x".into(), size_bytes: size, category, modified: None, accessed: None }
}

#[test]
fn scan_summary_by_category() {
    assert_eq!(scan_cache_path("/home/u/.diskspace"), "/home/u/.diskspace/scan.json");
    let rows = category_summary(&vec![
        entry(Category::AppCache, 10),
        entry(Category::VmDisk, 30),
        entry(Category::AppCache, 25),
        entry(Category::Unknown, 0),
    ]);
    let got: Vec<(Category, u128)> = rows.iter().map(|r| (r.category, r.bytes)).collect();
    assert_eq!(got, [(Category::AppCache, 35), (Category::VmDisk, 30)]);
    assert_eq!(bar_scale(&rows), 35);
    assert_eq!(bar_scale(&Vec::new()), 1);
    let big = category_summary(&vec![entry(Category::VmDisk, u64::MAX), entry(Category::VmDisk, 2)]);
    assert_eq!(big[0].bytes, u64::MAX as u128 + 2);
}

// ---- the dashboard ---------------------------------------------------------

#[test]
fn chart_is_thinned_by_means() {
    let series: Vec<u64> = vec![1, 3, 5, 7, 9, 12, 20];
    assert_eq!(downsample(&series, 7), series);
    assert_eq!(downsample(&series, 0), series);
    // 0..2, 2..4, 4..7
    assert_eq!(downsample(&series, 3), [2, 6, 13]);
    assert_eq!(downsample(&vec![u64::MAX, u64::MAX], 1), [u64::MAX]);
}

#[test]
fn window_keeps_what_is_not_older() {
    let s = |ts: i64, free: u64| DfSample { ts, free_bytes: free, total_bytes: 100 + ts as u64 };
    let w = free_window(&vec![s(1, 90), s(5, 40), s(6, 70), s(9, 50)], 5);
    assert_eq!(w.free_series, [40, 70, 50]);
    assert_eq!((w.free_now, w.total, w.low, w.high), (50, 109, 40, 70));
    let w = free_window(&vec![s(1, 90)], 5);
    assert!(w.free_series.is_empty());
    assert_eq!((w.free_now, w.total, w.low, w.high), (0, 0, 0, 0));
}

#[test]
fn bars_and_outlook() {
    assert_eq!(filled_cells(0, 0), 0);
    assert_eq!(filled_cells(100, 100), 14);
    assert_eq!(filled_cells(50, 100), 7);
    assert_eq!(filled_cells(1, 28), 1);
    assert_eq!(filled_cells(1, 29), 0);
    assert_eq!(filled_cells(u64::MAX, 1), 14);
    assert_eq!(outlook(Some(BurnRate::Shrinking(5)), Some(3)), Outlook::Filling(5, 3));
    assert_eq!(outlook(Some(BurnRate::Shrinking(5)), None), Outlook::Flat);
    assert_eq!(outlook(Some(BurnRate::Growing(5)), Some(3)), Outlook::Reclaiming(5));
    assert_eq!(outlook(Some(BurnRate::Still), None), Outlook::Flat);
    assert_eq!(outlook(None, Some(3)), Outlook::Unknown);
}

#[test]
fn a_key_of_one_name_is_set_in_the_root_table() {
    assert_eq!(set_toml_key("", "top", "5").unwrap(), "top = 5\n");
    let replaced = set_toml_key("[a]\nb = 1\n", "a", "x").unwrap();
    assert_eq!(replaced, "a= \"x\"\n", "the key keeps the layout of the header");
    assert_eq!(set_toml_key("b = 1\n", "", "true").unwrap(), "b = 1\n\"\" = true\n");
}
