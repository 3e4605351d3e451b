use cargo_schnee::bench_profile::{
    extract_drv_name, parse_activity, profile_label, split_line, Activity, ProfileLog,
};
use cargo_schnee::bench_report::{
    best_duration, clean_rows, demote_headings, get, get_duration, incremental_rows, inline_readme,
    lines, row, write_report, BenchResult, Cell, BETWEEN, FOOTER, HEADER,
};

const HASH: &str = "aaaaaaaaaaaaaaaaaaaaaaaaaaaaaaaa";

fn strings(v: &[&str]) -> Vec<String> {
    v.iter().map(|s| s.to_string()).collect()
}

fn result(system: &str, scenario: &str, status: &str, duration: Option<usize>) -> BenchResult {
    BenchResult {
        system: system.to_string(),
        scenario: scenario.to_string(),
        status: status.to_string(),
        duration,
    }
}

#[test]
fn results_are_looked_up() {
    let results = vec![
        result("crane", "clean", "OK", Some(4)),
        result("crane", "clean", "OK", Some(1)),
        result("cargo-schnee", "clean", "FAIL", Some(0)),
        result("cargo2nix", "clean", "OK", Some(2)),
        result("cargo-build", "clean", "OK", Some(0)),
    ];
    assert_eq!(get(&results, "crane", "clean").unwrap().duration, Some(4));
    assert!(get(&results, "crane", "incremental").is_none());
    assert_eq!(get_duration(&results, "cargo-schnee", "clean"), None);
    // The baseline does not compete.
    assert_eq!(best_duration(&results, "clean"), Some(2));
    assert_eq!(best_duration(&results, "incremental"), None);
}

#[test]
fn the_fastest_row_is_bold() {
    let results = vec![
        result("cargo-build", "clean", "OK", Some(1)),
        result("cargo-schnee", "clean", "OK", Some(3)),
        result("crane", "clean", "OK", Some(4)),
    ];
    let rows = clean_rows(&results);
    assert_eq!(rows.len(), 5);
    assert!(matches!(&rows[0].cells[2], Cell::Text(t) if t == "baseline"));
    assert!(matches!(&rows[1].cells[1], Cell::Time(v) if *v == vec![3]));
    assert!(matches!(&rows[1].cells[2], Cell::Ratio(a, b) if *a == vec![3] && *b == vec![1]));
    assert!(rows[1].bold && !rows[0].bold && !rows[3].bold);
    assert!(matches!(&rows[2].cells[1], Cell::Text(t) if t == "---"));
}

#[test]
fn generation_is_counted() {
    let results = vec![
        result("cargo-build", "clean", "OK", Some(1)),
        result("cargo2nix", "generate", "OK", Some(5)),
        result("cargo2nix", "clean", "OK", Some(3)),
        result("cargo2nix", "incremental", "OK", Some(2)),
    ];
    let rows = clean_rows(&results);
    assert_eq!(rows.len(), 6);
    assert!(matches!(&rows[4].cells[1], Cell::Time(v) if *v == vec![5, 3]));
    assert!(matches!(&rows[5].cells[0], Cell::Text(t) if t == "cargo2nix (w/pregeneration)"));
    assert!(rows[5].bold && !rows[4].bold);
    let rows = incremental_rows(&results);
    assert_eq!(rows.len(), 5);
    assert!(rows[4].bold);
    assert_eq!(rows[4].cells.len(), 4);
}

#[test]
fn rows_of_a_table() {
    assert_eq!(row(&strings(&["a", "b"]), false), "| a | b |");
    assert_eq!(row(&strings(&["a", "b"]), true), "| **a** | **b** |");
    let clean = vec![(strings(&["x", "1.0s", "baseline"]), false)];
    let text = write_report(&clean, &vec![]);
    assert_eq!(text, format!("{HEADER}| x | 1.0s | baseline |\n{BETWEEN}{FOOTER}"));
}

#[test]
fn a_report_stands_in_the_readme() {
    assert_eq!(lines("a\r\nb\n\nc"), strings(&["a", "b", "", "c"]));
    assert_eq!(demote_headings("# A\ntext\n## B"), "## A\ntext\n### B\n");
    let readme = "top\n<!-- BEGIN BENCHMARK -->\nold\n<!-- END BENCHMARK -->\nend";
    assert_eq!(
        inline_readme(readme, "# A\n").unwrap(),
        "top\n<!-- BEGIN BENCHMARK -->\n## A\n<!-- END BENCHMARK -->\nend"
    );
    assert_eq!(
        inline_readme("<!-- END BENCHMARK -->", "").unwrap_err(),
        "<!-- BEGIN BENCHMARK -->"
    );
    assert_eq!(
        inline_readme("<!-- BEGIN BENCHMARK -->", "").unwrap_err(),
        "<!-- END BENCHMARK -->"
    );
}

#[test]
fn lines_of_a_profile() {
    assert_eq!(
        split_line("[1.5] @nix {\"a\":1}"),
        Some(("1.5".to_string(), "{\"a\":1}".to_string()))
    );
    assert_eq!(split_line("1.5] @nix {}"), None);
    assert_eq!(split_line("[1.5 @nix {}"), None);
    assert_eq!(split_line("[1.5] other"), None);
    assert_eq!(
        extract_drv_name(&format!("/nix/store/{HASH}-serde-1.0.drv")),
        "serde-1.0"
    );
    assert_eq!(extract_drv_name("x.drv"), "x");
    // Without its ending the path is kept whole.
    assert_eq!(extract_drv_name("/nix/store/x"), "/nix/store/x");
    assert_eq!(profile_label("profile-crane-clean"), "crane-clean");
}

#[test]
fn activities() {
    let start = format!(
        "{{\"action\":\"start\",\"id\":7,\"type\":105,\"fields\":[\"/nix/store/{HASH}-a.drv\"]}}"
    );
    assert!(matches!(parse_activity(&start), Activity::Start(7, n) if n == "a"));
    assert!(matches!(
        parse_activity("{\"action\":\"stop\",\"id\":7}"),
        Activity::Stop(7)
    ));
    assert!(matches!(
        parse_activity("{\"action\":\"start\",\"id\":7,\"type\":100}"),
        Activity::Other
    ));
    assert!(matches!(parse_activity("not json"), Activity::Other));
    // A number that is no identifier counts as none.
    assert!(matches!(
        parse_activity("{\"action\":\"stop\",\"id\":-3}"),
        Activity::Stop(0)
    ));
}

#[test]
fn builds_are_paired() {
    let mut log = ProfileLog::new();
    log.note(Activity::Start(1, "a".to_string()), 0);
    log.note(Activity::Start(2, "b".to_string()), 1);
    log.note(Activity::Stop(1), 2);
    log.note(Activity::Stop(9), 3);
    log.note(Activity::Other, 4);
    log.note(Activity::Stop(1), 5);
    assert_eq!(log.builds, vec![("a".to_string(), 0, 2)]);
    assert!(log.pending.contains_key(&2) && log.pending.len() == 1);
}
