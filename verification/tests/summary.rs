//! The summary of top improvements and regressions, and its headline.

use criterion_markdown::{
    compute_summary, format_compact_change, write_summary, BenchEntry, ChangeInfo,
    ChangeThresholds, Level, SummaryEntry, SummaryInfo,
};

fn level(x: f64) -> Level {
    Level::from_bits(x.to_bits())
}

fn change_info(point_estimate: f64) -> ChangeInfo {
    let ratio = 1.0 + point_estimate;
    let compare = 1.0 / ratio;
    ChangeInfo::new(
        level(point_estimate),
        level(ratio),
        level(compare),
        format!("{:.2}", ratio),
        format!("{:.2}", compare),
    )
    .expect("the quantities of a measured change agree")
}

fn entry(full_id: &str, change: Option<f64>) -> BenchEntry {
    BenchEntry {
        full_id: full_id.to_string(),
        group_id: "group".to_string(),
        function_id: full_id.to_string(),
        value_str: None,
        estimate_text: "1.00 ns".to_string(),
        throughput: None,
        baseline_found: change.is_some(),
        change: change.map(change_info),
    }
}

#[test]
fn compact_change_preserves_modest_improvement_icon() {
    let change = change_info(1.0 / 1.2 - 1.0);

    assert_eq!(
        format_compact_change(&change, ChangeThresholds::default()),
        "↗️ 1.20x"
    );
}

#[test]
fn headline_labels_regression_and_improvement() {
    let summary = SummaryInfo {
        gains: vec![SummaryEntry {
            id: "faster".to_string(),
            change: "2.00x faster".to_string(),
            headline_change: "🚀 2.00x".to_string(),
        }],
        regressions: vec![SummaryEntry {
            id: "slower".to_string(),
            change: "1.20x slower".to_string(),
            headline_change: "❌ 1.20x".to_string(),
        }],
        compared_count: 2,
        enabled: true,
    };

    assert_eq!(summary.headline().as_deref(), Some("❌ 1.20x | 🚀 2.00x"));
}

#[test]
fn headline_reports_stable_when_all_comparisons_are_neutral() {
    let summary = SummaryInfo {
        gains: Vec::new(),
        regressions: Vec::new(),
        compared_count: 2,
        enabled: true,
    };

    assert_eq!(summary.headline().as_deref(), Some("➖ stable"));
}

#[test]
fn headline_is_absent_without_comparisons_or_when_disabled() {
    let none_compared = SummaryInfo {
        gains: Vec::new(),
        regressions: Vec::new(),
        compared_count: 0,
        enabled: true,
    };
    assert_eq!(none_compared.headline(), None);

    let disabled = SummaryInfo {
        gains: vec![SummaryEntry {
            id: "faster".to_string(),
            change: "2.00x faster".to_string(),
            headline_change: "🚀 2.00x".to_string(),
        }],
        regressions: Vec::new(),
        compared_count: 1,
        enabled: false,
    };
    assert_eq!(disabled.headline(), None);
}

#[test]
fn summary_ranks_largest_changes_first_and_keeps_ties_in_order() {
    let entries = vec![
        entry("a", Some(-0.2)),
        entry("b", Some(-0.6)),
        entry("c", Some(-0.2)),
        entry("d", Some(0.3)),
        entry("e", Some(0.5)),
        entry("f", Some(0.0)),
        entry("g", None),
    ];
    let info = compute_summary(&entries, ChangeThresholds::default(), 3);
    let gains: Vec<&str> = info.gains.iter().map(|g| g.id.as_str()).collect();
    let regressions: Vec<&str> = info.regressions.iter().map(|r| r.id.as_str()).collect();
    assert_eq!(gains, vec!["b", "a", "c"]);
    assert_eq!(regressions, vec!["e", "d"]);
    assert_eq!(info.compared_count, 6);
    assert!(info.enabled);
    assert_eq!(info.gains[0].change, "🚀 **2.50x faster**");
    assert_eq!(info.gains[0].headline_change, "🚀 2.50x");
    assert_eq!(info.regressions[0].change, "❌ *1.50x slower*");
    assert_eq!(info.headline().as_deref(), Some("❌ 1.50x | 🚀 2.50x"));
}

#[test]
fn summary_limit_truncates_each_category() {
    let entries = vec![
        entry("a", Some(-0.2)),
        entry("b", Some(-0.6)),
        entry("c", Some(0.3)),
        entry("d", Some(0.5)),
    ];
    let info = compute_summary(&entries, ChangeThresholds::default(), 1);
    assert_eq!(info.gains.len(), 1);
    assert_eq!(info.gains[0].id, "b");
    assert_eq!(info.regressions.len(), 1);
    assert_eq!(info.regressions[0].id, "d");
}

#[test]
fn zero_limit_omits_the_summary() {
    let entries = vec![entry("a", Some(-0.6)), entry("b", Some(0.5))];
    let info = compute_summary(&entries, ChangeThresholds::default(), 0);
    assert!(!info.enabled);
    assert!(info.gains.is_empty());
    assert!(info.regressions.is_empty());
    let mut out = String::from("start");
    write_summary(&mut out, &info);
    assert_eq!(out, "start");
    assert_eq!(info.headline(), None);
}

#[test]
fn invalid_changes_are_not_compared() {
    let entries = vec![entry("a", Some(f64::INFINITY)), entry("b", Some(-1.5))];
    let info = compute_summary(&entries, ChangeThresholds::default(), 3);
    assert_eq!(info.compared_count, 0);
    assert!(info.gains.is_empty());
    assert!(info.regressions.is_empty());
    assert_eq!(info.headline(), None);
}

#[test]
fn write_summary_lists_sections() {
    let info = SummaryInfo {
        gains: vec![SummaryEntry {
            id: "g/fast".to_string(),
            change: "🚀 **2.00x faster**".to_string(),
            headline_change: "🚀 2.00x".to_string(),
        }],
        regressions: vec![SummaryEntry {
            id: "g/slow".to_string(),
            change: "❌ *1.50x slower*".to_string(),
            headline_change: "❌ 1.50x".to_string(),
        }],
        compared_count: 2,
        enabled: true,
    };
    let mut out = String::new();
    write_summary(&mut out, &info);
    assert_eq!(
        out,
        "## Top improvements\n\n- `g/fast` — 🚀 **2.00x faster**\n\n## Top regressions\n\n- `g/slow` — ❌ *1.50x slower*\n\n"
    );

    let stable = SummaryInfo {
        gains: Vec::new(),
        regressions: Vec::new(),
        compared_count: 1,
        enabled: true,
    };
    let mut out = String::new();
    write_summary(&mut out, &stable);
    assert_eq!(out, "No benchmark improved or regressed.\n\n");
}
