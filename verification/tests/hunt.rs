use diskspace::drill::{hunt_total, HuntCandidate};
use diskspace::hunt::{
    cache_is_usable, hunt_from_cache, min_size_bytes, top_level_matched, CACHE_STALE_AFTER_HOURS,
};
use diskspace::model::{Category, DirTotal, Rule, ScanResult, ScannedEntry};
use diskspace::walk::{hunt_fresh_walk, rule_matches, Walk};

const HOUR: i64 = 3_600_000_000_000;
const NOW: i64 = 480_000 * HOUR;
const HOME: &str = "/home/u";
const GB: u64 = 1024 * 1024 * 1024;

fn dir(path: &str, total: u64) -> DirTotal {
    DirTotal { path: path.to_string(), total_bytes: total }
}

fn matched(path: &str, size: u64) -> ScannedEntry {
    ScannedEntry {
        path: path.to_string(),
        size_bytes: size,
        category: Category::DevArtifact,
        modified: None,
        accessed: None,
    }
}

fn scan_with(largest: Vec<DirTotal>, entries: Vec<ScannedEntry>) -> ScanResult {
    ScanResult { scanned_at: NOW, entries, largest_dirs: largest }
}

fn paths(got: &[HuntCandidate]) -> Vec<&str> {
    got.iter().map(|c| c.path.as_str()).collect()
}

#[test]
fn fully_covered_dir_reports_zero_unruled() {
    let scan = scan_with(
        vec![
            dir("/home/u/proj", 10 * GB),
            dir("/home/u/proj/node_modules", 10 * GB),
        ],
        vec![matched("/home/u/proj/node_modules", 10 * GB)],
    );
    let got = hunt_from_cache(&scan, HOME, 500 * 1024 * 1024, 15);
    assert!(
        got.is_empty(),
        "a fully rule-covered directory must not surface as unruled, got {:?}",
        got
    );
}

#[test]
fn partial_cover_subtracts_matched_bytes() {
    let scan = scan_with(
        vec![
            dir("/home/u/work", 10 * GB),
            dir("/home/u/work/target", 6 * GB),
        ],
        vec![matched("/home/u/work/target", 6 * GB)],
    );
    let got = hunt_from_cache(&scan, HOME, 500 * 1024 * 1024, 15);
    assert_eq!(got.len(), 1);
    assert_eq!(got[0].path, "/home/u/work");
    assert_eq!(got[0].unruled_bytes, 4 * GB as u128);
    assert_eq!(got[0].total_bytes, 10 * GB as u128);
    assert_eq!(got[0].depth, 1);
}

#[test]
fn drills_to_concentrated_unruled_child() {
    let scan = scan_with(
        vec![
            dir("/home/u/Dropbox", 200 * GB),
            dir("/home/u/Dropbox/Clef", 138 * GB),
            dir("/home/u/Dropbox/misc", 10 * GB),
        ],
        vec![],
    );
    let got = hunt_from_cache(&scan, HOME, 500 * 1024 * 1024, 15);
    assert!(
        !got.iter().any(|c| c.path == "/home/u/Dropbox"),
        "the coarse parent blob must not be reported, got {:?}",
        paths(&got)
    );
    let clef = got
        .iter()
        .find(|c| c.path == "/home/u/Dropbox/Clef")
        .expect("Clef surfaced as its own row");
    assert_eq!(clef.unruled_bytes, 138 * GB as u128);
    assert!(
        got.iter().any(|c| c.path == "/home/u/Dropbox/misc"),
        "misc (also above the floor) surfaced too"
    );
}

#[test]
fn drills_real_dropbox_surfaces_clef_and_bmi() {
    let scan = scan_with(
        vec![
            dir("/home/u/Dropbox", 397 * GB),
            dir("/home/u/Dropbox/Clef", 138 * GB),
            dir("/home/u/Dropbox/BMI", 60 * GB),
        ],
        vec![],
    );
    let got = hunt_from_cache(&scan, HOME, 1024 * 1024 * 1024, 15);
    assert!(
        !got.iter().any(|c| c.path == "/home/u/Dropbox"),
        "the 397 GB Dropbox blob must NOT be reported, got {:?}",
        paths(&got)
    );
    let clef = got
        .iter()
        .find(|c| c.path == "/home/u/Dropbox/Clef")
        .expect("Clef (138 GB) surfaced as its own row");
    assert_eq!(clef.unruled_bytes, 138 * GB as u128);
    let bmi = got
        .iter()
        .find(|c| c.path == "/home/u/Dropbox/BMI")
        .expect("BMI (60 GB) surfaced as its own row");
    assert_eq!(bmi.unruled_bytes, 60 * GB as u128);
}

#[test]
fn surfaces_each_large_child_separately() {
    let scan = scan_with(
        vec![
            dir("/home/u/media", 100 * GB),
            dir("/home/u/media/a", 40 * GB),
            dir("/home/u/media/b", 35 * GB),
            dir("/home/u/media/c", 25 * GB),
        ],
        vec![],
    );
    let got = hunt_from_cache(&scan, HOME, 500 * 1024 * 1024, 15);
    assert_eq!(got.len(), 3, "each large child surfaced separately");
    assert!(
        !got.iter().any(|c| c.path == "/home/u/media"),
        "the coarse parent is dropped once its big children surface"
    );
    for child in ["a", "b", "c"] {
        assert!(
            got.iter().any(|c| c.path == format!("/home/u/media/{child}")),
            "media/{child} surfaced"
        );
    }
}

#[test]
fn keeps_parent_when_children_are_all_small() {
    let scan = scan_with(
        vec![
            dir("/home/u/scatter", 6 * GB),
            dir("/home/u/scatter/a", GB / 2),
            dir("/home/u/scatter/b", GB / 2),
            dir("/home/u/scatter/c", GB / 2),
        ],
        vec![],
    );
    let got = hunt_from_cache(&scan, HOME, 2 * GB, 15);
    assert_eq!(got.len(), 1, "no child clears the floor → keep the parent");
    assert_eq!(
        got[0].path, "/home/u/scatter",
        "spread-thin bytes keep the parent as the reported granularity"
    );
    assert_eq!(got[0].unruled_bytes, 6 * GB as u128);
}

#[test]
fn drills_multiple_levels() {
    let scan = scan_with(
        vec![
            dir("/home/u/Dropbox", 100 * GB),
            dir("/home/u/Dropbox/Code", 95 * GB),
            dir("/home/u/Dropbox/Code/repo", 90 * GB),
        ],
        vec![],
    );
    let got = hunt_from_cache(&scan, HOME, 500 * 1024 * 1024, 15);
    assert_eq!(got.len(), 1);
    assert_eq!(got[0].path, "/home/u/Dropbox/Code/repo");
    assert_eq!(got[0].unruled_bytes, 90 * GB as u128);
    assert_eq!(got[0].depth, 3);
}

#[test]
fn min_size_filters_on_unruled_not_total() {
    let scan = scan_with(
        vec![
            dir("/home/u/cache", 50 * GB),
            dir("/home/u/cache/matched", 50 * GB - 100 * 1024 * 1024),
        ],
        vec![matched(
            "/home/u/cache/matched",
            50 * GB - 100 * 1024 * 1024,
        )],
    );
    let got = hunt_from_cache(&scan, HOME, 500 * 1024 * 1024, 15);
    assert!(
        got.is_empty(),
        "a mostly-covered dir below the unruled floor is dropped, got {:?}",
        got
    );
}

#[test]
fn top_truncates_ranked_by_unruled() {
    let scan = scan_with(
        vec![
            dir("/home/u/a", 30 * GB),
            dir("/home/u/b", 20 * GB),
            dir("/home/u/c", 10 * GB),
        ],
        vec![],
    );
    let got = hunt_from_cache(&scan, HOME, 1024 * 1024 * 1024, 2);
    assert_eq!(got.len(), 2, "top=2 keeps only the two biggest");
    assert_eq!(got[0].path, "/home/u/a");
    assert_eq!(got[1].path, "/home/u/b");
}

#[test]
fn nested_matched_entries_do_not_double_count() {
    let scan = scan_with(
        vec![dir("/home/u/proj", 10 * GB)],
        vec![
            matched("/home/u/proj/target", 8 * GB),
            matched("/home/u/proj/target/debug", 5 * GB),
        ],
    );
    let got = hunt_from_cache(&scan, HOME, 500 * 1024 * 1024, 15);
    assert_eq!(got.len(), 1);
    assert_eq!(
        got[0].unruled_bytes,
        2 * GB as u128,
        "only the top-level matched dir's bytes are subtracted"
    );
}

#[test]
fn matched_entries_are_told_apart_by_components() {
    let entries = vec![
        matched("/home/u/b/inner", 5),
        matched("/home/u/b", 9),
        matched("/home/u/bc", 7),
        matched("/home/u/a", 0),
    ];
    let mut tops: Vec<&str> = top_level_matched(&entries).iter().map(|&i| entries[i].path.as_str()).collect();
    tops.sort();
    assert_eq!(tops, ["/home/u/b", "/home/u/bc"]);
}

#[test]
fn stale_cache_age_is_detected() {
    let usable = |at: i64| {
        let mut scan = scan_with(vec![dir("/home/u/x", GB)], vec![]);
        scan.scanned_at = at;
        cache_is_usable(&scan, NOW)
    };
    assert!(usable(NOW - (CACHE_STALE_AFTER_HOURS - 1) * HOUR), "a recent scan is fresh");
    assert!(!usable(NOW - (CACHE_STALE_AFTER_HOURS + 1) * HOUR), "an old scan is stale");
    assert!(usable(NOW - CACHE_STALE_AFTER_HOURS * HOUR));
    assert!(!usable(NOW - CACHE_STALE_AFTER_HOURS * HOUR - 1));
    assert!(!usable(NOW - CACHE_STALE_AFTER_HOURS * HOUR - HOUR / 2), "half an hour over is stale");
}

#[test]
fn fresh_cache_loads_stale_cache_falls_back() {
    let mut scan = scan_with(vec![dir("/home/u/x", 1024 * 1024 * 1024)], vec![]);
    scan.scanned_at = NOW - HOUR;
    assert!(cache_is_usable(&scan, NOW), "a fresh scan.json must load");
    scan.scanned_at = NOW - (CACHE_STALE_AFTER_HOURS + 2) * HOUR;
    assert!(!cache_is_usable(&scan, NOW), "a stale scan.json must yield None");
}

#[test]
fn legacy_cache_without_largest_dirs_falls_back() {
    let scan = scan_with(Vec::new(), Vec::new());
    assert!(
        !cache_is_usable(&scan, NOW),
        "an empty largest_dirs (legacy cache) must yield None"
    );
}

#[test]
fn min_size_counts_mebibytes() {
    assert_eq!(min_size_bytes(500), 500 * 1024 * 1024);
    assert_eq!(min_size_bytes(0), 0);
}

fn walk_of(files: &[(&str, u64)], rules: &Vec<Rule>) -> Walk {
    let mut walk = Walk::new(HOME);
    for (path, size) in files {
        walk.add_file(path, *size, rules);
    }
    walk
}

fn node_modules_rule() -> Rule {
    Rule {
        id: "node_modules".into(),
        category: "dev-artifact".into(),
        path_pattern: format!("{HOME}/**/node_modules/**"),
        domain: None,
        base_confidence: 900_000,
        reason: "deps".into(),
        exclude_if_recent_access_days: None,
        exclude_if_recent_modified_days: None,
        consequences: None,
        reference_url: None,
    }
}

#[test]
fn fresh_walk_is_glob_aware_and_subtracts_matched() {
    let rules = vec![node_modules_rule()];
    let files = [
        ("/home/u/proj/node_modules/lib.bin", 2 * 1024 * 1024),
        ("/home/u/proj/data/blob.bin", 3 * 1024 * 1024),
    ];
    let got = hunt_fresh_walk(&walk_of(&files, &rules), 1024 * 1024, 15);
    assert!(
        got.iter().all(|c| !c.path.ends_with("node_modules")),
        "a fully-matched node_modules must not surface as unruled: {:?}",
        paths(&got)
    );
    let data = got
        .iter()
        .find(|c| c.path == "/home/u/proj/data")
        .expect("proj/data surfaced as the concentrated unruled child");
    assert_eq!(
        data.unruled_bytes,
        3 * 1024 * 1024,
        "matched bytes subtracted; the unruled remainder is data/'s 3 MB"
    );
}

#[test]
fn fresh_walk_drills_like_cache() {
    let files = [
        ("/home/u/Dropbox/Clef/clef.bin", 4 * 1024 * 1024),
        ("/home/u/Dropbox/BMI/bmi.bin", 2 * 1024 * 1024),
        ("/home/u/Dropbox/scatter/x.bin", 256 * 1024),
    ];
    let got = hunt_fresh_walk(&walk_of(&files, &Vec::new()), 1024 * 1024, 15);
    assert!(
        !got.iter().any(|c| c.path == "/home/u/Dropbox"),
        "the coarse Dropbox parent must not be reported, got {:?}",
        paths(&got)
    );
    assert!(
        got.iter().any(|c| c.path == "/home/u/Dropbox/Clef"),
        "Clef surfaced by the fresh-walk drill"
    );
    assert!(
        got.iter().any(|c| c.path == "/home/u/Dropbox/BMI"),
        "BMI surfaced by the fresh-walk drill"
    );
    assert_eq!(got[0].total_bytes, 4 * 1024 * 1024);
}

fn rule(pattern: &str) -> Rule {
    Rule { path_pattern: pattern.into(), ..node_modules_rule() }
}

const MIB: u64 = 1024 * 1024;

#[test]
fn a_rule_on_a_directory_covers_what_is_beneath() {
    let rules = vec![rule("**/node_modules")];
    assert!(rule_matches(&rules, "/home/u/p/node_modules", HOME));
    assert!(rule_matches(&rules, "/home/u/p/node_modules/lib.bin", HOME));
    assert!(rule_matches(&rules, "/home/u/p/node_modules/a/b/lib.bin", HOME));
    assert!(!rule_matches(&rules, "/home/u/p/node_modules_old/lib.bin", HOME));
    assert!(!rule_matches(&rules, "/home/u/p/lib.bin", HOME));
    let got = hunt_fresh_walk(
        &walk_of(&[("/home/u/p/node_modules/lib.bin", 8 * MIB)], &rules),
        MIB,
        15,
    );
    assert!(got.is_empty(), "covered bytes do not surface: {:?}", paths(&got));
}

#[test]
fn rules_on_home_or_above_it_cover_nothing() {
    let rules = vec![rule("/home/u"), rule("/home")];
    assert!(!rule_matches(&rules, "/home/u/p/lib.bin", HOME));
    let got = hunt_fresh_walk(&walk_of(&[("/home/u/p/lib.bin", 8 * MIB)], &rules), MIB, 15);
    assert_eq!(paths(&got), ["/home/u/p"]);
}

#[test]
fn a_walk_counts_files_beneath_home_only() {
    let files = [
        ("/home/u/p/a.bin", 2 * MIB),
        ("/home/other/b.bin", 9 * MIB),
        ("/home/u", 9 * MIB),
        ("/home/u/p/empty.bin", 0),
        ("/home/u/p/c.bin", 3 * MIB),
    ];
    let got = hunt_fresh_walk(&walk_of(&files, &Vec::new()), MIB, 15);
    assert_eq!(paths(&got), ["/home/u/p"]);
    assert_eq!((got[0].total_bytes, got[0].unruled_bytes), (5 * MIB as u128, 5 * MIB as u128));
    assert_eq!(got[0].depth, 1);
}

#[test]
fn a_walk_and_a_scan_of_one_tree_give_the_same_rows() {
    let rules = vec![rule("**/node_modules"), rule("**/*.cache")];
    let files = [
        ("/home/u/a/node_modules/x/lib.bin", 8 * MIB),
        ("/home/u/a/node_modules/y.bin", MIB),
        ("/home/u/a/src/main.bin", 4 * MIB),
        ("/home/u/a/src/big.cache", 2 * MIB),
        ("/home/u/b/one/data.bin", 3 * MIB),
        ("/home/u/b/two/data.bin", 5 * MIB),
        ("/home/u/note.bin", MIB),
    ];
    let scan = scan_with(
        vec![
            dir("/home/u", 24 * MIB),
            dir("/home/u/a", 15 * MIB),
            dir("/home/u/a/node_modules", 9 * MIB),
            dir("/home/u/a/node_modules/x", 8 * MIB),
            dir("/home/u/a/src", 6 * MIB),
            dir("/home/u/b", 8 * MIB),
            dir("/home/u/b/one", 3 * MIB),
            dir("/home/u/b/two", 5 * MIB),
        ],
        vec![
            matched("/home/u/a/node_modules", 9 * MIB),
            matched("/home/u/a/src/big.cache", 2 * MIB),
        ],
    );
    let rows = |v: Vec<HuntCandidate>| -> Vec<(String, u128, u128, usize)> {
        v.into_iter().map(|c| (c.path, c.unruled_bytes, c.total_bytes, c.depth)).collect()
    };
    for min in [1, MIB, 4 * MIB, 5 * MIB, 9 * MIB] {
        for top in [0, 1, 2, 15] {
            let live = rows(hunt_fresh_walk(&walk_of(&files, &rules), min, top));
            let cached = rows(hunt_from_cache(&scan, HOME, min, top));
            assert_eq!(live, cached, "floor {min}, {top} rows");
        }
    }
    let all = rows(hunt_fresh_walk(&walk_of(&files, &rules), MIB, 15));
    assert_eq!(
        all,
        [
            ("/home/u/b/two".to_string(), 5 * MIB as u128, 5 * MIB as u128, 2),
            ("/home/u/a/src".to_string(), 4 * MIB as u128, 6 * MIB as u128, 2),
            ("/home/u/b/one".to_string(), 3 * MIB as u128, 3 * MIB as u128, 2),
        ]
    );
}

#[test]
fn fewer_rows_are_the_first_of_more() {
    let scan = scan_with(
        vec![dir("/home/u/a", 5 * GB), dir("/home/u/b", 9 * GB), dir("/home/u/c", 7 * GB)],
        vec![],
    );
    let all = hunt_from_cache(&scan, HOME, GB, 15);
    assert_eq!(paths(&all), ["/home/u/b", "/home/u/c", "/home/u/a"]);
    for top in 0..5 {
        let some = hunt_from_cache(&scan, HOME, GB, top);
        assert_eq!(paths(&some), paths(&all)[..top.min(3)]);
    }
}

#[test]
fn the_order_of_the_walk_does_not_matter() {
    let mut files = vec![
        ("/home/u/a/x/1.bin", 2 * MIB),
        ("/home/u/b/2.bin", 3 * MIB),
        ("/home/u/a/x/3.bin", 4 * MIB),
        ("/home/u/a/y/z/4.bin", 5 * MIB),
        ("/home/u/b/5.bin", MIB),
    ];
    let rows = |files: &[(&str, u64)]| -> Vec<(String, u128)> {
        hunt_fresh_walk(&walk_of(files, &Vec::new()), 2 * MIB, 15)
            .into_iter()
            .map(|c| (c.path, c.unruled_bytes))
            .collect()
    };
    let first = rows(&files);
    assert_eq!(first[0], ("/home/u/a/x".to_string(), 6 * MIB as u128));
    assert_eq!(first.len(), 3);
    files.reverse();
    assert_eq!(rows(&files), first);
    files.swap(0, 2);
    assert_eq!(rows(&files), first);
}

#[test]
fn a_report_totals_its_rows_and_marks_the_partly_ruled() {
    let scan = scan_with(
        vec![dir("/home/u/a", 30 * GB), dir("/home/u/b", 20 * GB), dir("/home/u/c", GB)],
        vec![matched("/home/u/b/target", 5 * GB)],
    );
    let got = hunt_from_cache(&scan, HOME, 2 * GB, 15);
    assert_eq!(got.len(), 2);
    assert_eq!(hunt_total(&got), Some(45 * GB as u128), "only what is shown is counted");
    assert!(!got[0].is_partly_ruled());
    assert!(got[1].is_partly_ruled());
    assert_eq!((got[1].unruled_bytes, got[1].total_bytes), (15 * GB as u128, 20 * GB as u128));
    assert_eq!(hunt_total(&Vec::new()), Some(0));
}

#[test]
fn a_total_out_of_range_is_refused() {
    let row = |bytes: u128| HuntCandidate {
        path: "/home/u/a".to_string(),
        unruled_bytes: bytes,
        total_bytes: bytes,
        depth: 1,
    };
    assert_eq!(hunt_total(&vec![row(u128::MAX - 1), row(1)]), Some(u128::MAX));
    assert_eq!(hunt_total(&vec![row(u128::MAX), row(1)]), None);
}
