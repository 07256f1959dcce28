//! Change indicators, labels, tables, and the discovery rule.

use criterion_markdown::{
    classify_change, format_change, format_table, is_skipped_directory, write_group_table,
    BenchEntry, ChangeClassification, ChangeInfo, ChangeKind, ChangeThresholds, Level,
    RenderError, Renderer, SummaryInfo, TimeUnit, time_unit,
};

fn level(x: f64) -> Level {
    Level::from_bits(x.to_bits())
}

fn change_info(point_estimate: f64) -> ChangeInfo {
    let ratio = 1.0 + point_estimate;
    let compare = 1.0 / ratio;
    ChangeInfo::new(
        level(point_estimate),
        level(ratio),
        level(compare),
        format!("{:.2}", ratio),
        format!("{:.2}", compare),
    )
    .expect("the quantities of a measured change agree")
}

fn entry(group: &str, function_id: &str, value_str: Option<&str>, time: &str, change: Option<f64>) -> BenchEntry {
    BenchEntry {
        full_id: format!("{group}/{function_id}"),
        group_id: group.to_string(),
        function_id: function_id.to_string(),
        value_str: value_str.map(|v| v.to_string()),
        estimate_text: time.to_string(),
        throughput: None,
        baseline_found: change.is_some(),
        change: change.map(change_info),
    }
}

fn no_summary() -> SummaryInfo {
    SummaryInfo { gains: Vec::new(), regressions: Vec::new(), compared_count: 0, enabled: false }
}

#[test]
fn levels_follow_the_order_of_quantities() {
    assert_eq!(level(0.0), level(-0.0));
    assert_eq!(level(0.0), Level::zero());
    assert_eq!(level(1.0), Level::one());
    assert!(level(-2.0).position < level(-1.0).position);
    assert!(level(-1.0).position < level(0.0).position);
    assert!(level(0.5).position < level(1.0).position);
    assert!(level(1.0).position < level(1.1).position);
    assert!(level(1.0e300).position < level(f64::INFINITY).position);
    assert!(level(f64::MAX).is_finite());
    assert!(level(-f64::MAX).is_finite());
    assert!(!level(f64::INFINITY).is_finite());
    assert!(!level(f64::NEG_INFINITY).is_finite());
    assert!(!level(f64::NAN).is_finite());
    assert!(!level(-f64::NAN).is_finite());
}

#[test]
fn default_thresholds_are_valid() {
    let t = ChangeThresholds::default();
    assert_eq!(t.improvement_ratio, level(1.1));
    assert_eq!(t.strong_improvement_ratio, level(1.8));
    assert_eq!(t.regression_ratio, level(0.9));
    assert!(t.validate().is_ok());
}

#[test]
fn each_threshold_error_has_its_message() {
    let t = ChangeThresholds::default();
    assert!(matches!(
        t.improvement_ratio(level(f64::NAN)).validate(),
        Err(RenderError::InvalidImprovementRatio)
    ));
    assert!(matches!(
        t.strong_improvement_ratio(level(1.0)).validate(),
        Err(RenderError::InvalidStrongImprovementRatio)
    ));
    assert!(matches!(
        t.regression_ratio(level(0.0)).validate(),
        Err(RenderError::InvalidRegressionRatio)
    ));
    assert!(matches!(
        t.regression_ratio(level(f64::INFINITY)).validate(),
        Err(RenderError::InvalidRegressionRatio)
    ));
    assert!(t.improvement_ratio(level(1.0)).regression_ratio(level(1.0)).validate().is_ok());
    assert_eq!(
        RenderError::InvalidImprovementRatio.message(),
        "improvement ratio must be finite and at least 1.0"
    );
    assert_eq!(
        RenderError::InvalidStrongImprovementRatio.message(),
        "strong improvement ratio must be finite and at least the improvement ratio"
    );
    assert_eq!(
        RenderError::InvalidRegressionRatio.message(),
        "regression ratio must be finite, positive, and at most 1.0"
    );
    assert_eq!(
        RenderError::NoResults { criterion_dir: "target/criterion".to_string() }.message(),
        "No benchmark results found in target/criterion"
    );
    assert_eq!(
        RenderError::BaselineNotFound {
            baseline: "main".to_string(),
            baseline_root: "target/criterion".to_string(),
        }
        .message(),
        "Baseline dataset 'main' not found in target/criterion"
    );
}

#[test]
fn classification_tiers() {
    let t = ChangeThresholds::default();
    let kind = |pe: f64| match classify_change(&change_info(pe), t) {
        ChangeClassification::Valid { kind, .. } => Some(kind),
        ChangeClassification::Invalid => None,
    };
    assert_eq!(kind(-0.5), Some(ChangeKind::StrongImprovement));
    assert_eq!(kind(-0.2), Some(ChangeKind::Improvement));
    assert_eq!(kind(0.0), Some(ChangeKind::Neutral));
    assert_eq!(kind(0.05), Some(ChangeKind::Neutral));
    assert_eq!(kind(0.2), Some(ChangeKind::Regression));
    assert_eq!(kind(-1.0), None);
    assert_eq!(kind(-2.0), None);
    assert_eq!(kind(f64::INFINITY), None);
    assert_eq!(kind(f64::NAN), None);
}

#[test]
fn change_texts() {
    let t = ChangeThresholds::default();
    assert_eq!(format_change(&None, t), "---");
    assert_eq!(format_change(&Some(change_info(-0.5)), t), "🚀 **2.00x faster**");
    assert_eq!(format_change(&Some(change_info(-0.1)), t), "↗️ **1.11x faster**");
    assert_eq!(format_change(&Some(change_info(0.0)), t), "➖ **1.00x**");
    assert_eq!(format_change(&Some(change_info(0.5)), t), "❌ *1.50x slower*");
    assert_eq!(format_change(&Some(change_info(f64::INFINITY)), t), "⚠ n/a");
}

#[test]
fn column_and_row_labels() {
    let plain = entry("g", "sum/1000", None, "1.00 ns", None);
    assert_eq!(plain.column(), "sum");
    assert_eq!(plain.row(), Some("1000"));

    let nested = entry("g", "a/b/c", None, "1.00 ns", None);
    assert_eq!(nested.column(), "a/b");
    assert_eq!(nested.row(), Some("c"));

    let bare = entry("g", "sum", None, "1.00 ns", None);
    assert_eq!(bare.column(), "sum");
    assert_eq!(bare.row(), None);

    let valued = entry("g", "sum-special/10|20", Some("v|1"), "1.00 ns", None);
    assert_eq!(valued.column(), "sum-special/10|20");
    assert_eq!(valued.row(), Some("v|1"));

    let unicode = entry("g", "µs/ß", None, "1.00 ns", None);
    assert_eq!(unicode.column(), "µs");
    assert_eq!(unicode.row(), Some("ß"));
}

#[test]
fn group_table_layout() {
    let entries = vec![
        entry("g", "sum/10", None, "1.00 ns", Some(-0.5)),
        entry("g", "prod/10", None, "2.00 ns", None),
        entry("g", "sum/20", None, "3.00 ns", Some(0.5)),
    ];
    let mut out = String::new();
    write_group_table(&mut out, &entries, ChangeThresholds::default(), true);
    let expected = [
        "|             | `sum` | `prod` |\n",
        "|:-----------|:------------------------ |:------------------------ |\n",
        "| **`10`**    | `1.00 ns` (🚀 **2.00x faster**)  | `2.00 ns` (---)  |\n",
        "| **`20`**    | `3.00 ns` (❌ *1.50x slower*)  |                           |\n",
    ]
    .join("");
    assert_eq!(out, expected);

    let mut out = String::new();
    write_group_table(&mut out, &entries[1..2].iter().map(|e| BenchEntry {
        full_id: e.full_id.clone(),
        group_id: e.group_id.clone(),
        function_id: e.function_id.clone(),
        value_str: e.value_str.clone(),
        estimate_text: e.estimate_text.clone(),
        throughput: e.throughput,
        baseline_found: false,
        change: None,
    }).collect(), ChangeThresholds::default(), false);
    assert_eq!(
        out,
        "|             | `prod` |\n|:-----------|:------------------------ |\n| **`10`**    | `2.00 ns`  |\n"
    );
}

#[test]
fn later_entry_in_the_same_cell_wins() {
    let entries = vec![
        entry("g", "sum/10", None, "1.00 ns", None),
        entry("g", "sum/10", None, "9.00 ns", None),
    ];
    let mut out = String::new();
    write_group_table(&mut out, &entries, ChangeThresholds::default(), false);
    assert!(out.contains("`9.00 ns`"));
    assert!(!out.contains("`1.00 ns`"));
}

#[test]
fn long_row_labels_are_not_padded() {
    let entries = vec![entry("g", "f/0123456789", None, "1.00 ns", None)];
    let mut out = String::new();
    write_group_table(&mut out, &entries, ChangeThresholds::default(), false);
    assert!(out.contains("| **`0123456789`**  | `1.00 ns`  |\n"));
}

#[test]
fn groups_come_in_order_of_their_ids() {
    let entries = vec![
        entry("zeta", "f/1", None, "1.00 ns", None),
        entry("alpha", "f/1", None, "2.00 ns", None),
        entry("zeta", "f/2", None, "3.00 ns", None),
        entry("Beta", "f/1", None, "4.00 ns", None),
    ];
    let out = format_table(&entries, "T", false, ChangeThresholds::default(), &no_summary());
    let beta = out.find("### Beta").unwrap();
    let alpha = out.find("### alpha").unwrap();
    let zeta = out.find("### zeta").unwrap();
    assert!(beta < alpha && alpha < zeta);
    assert_eq!(out.matches("### zeta").count(), 1);
    assert!(out.starts_with("# T\n\n## Benchmark Results\n\n### Beta\n\n"));
    let zeta_section = &out[zeta..];
    assert!(zeta_section.contains("`1.00 ns`") && zeta_section.contains("`3.00 ns`"));

    let skipped = format_table(&entries, "T", true, ChangeThresholds::default(), &no_summary());
    assert!(skipped.starts_with("## Benchmark Results\n\n"));
}

#[test]
fn collapsible_report_is_wrapped() {
    let entries = vec![entry("g", "f/1", None, "1.00 ns", Some(0.5))];
    let out = Renderer::new("dir").title("T").collapsible(true).render(entries).ok().unwrap();
    assert!(out.starts_with("<details>\n<summary>T (❌ 1.50x)</summary>\n\n## Top regressions\n\n"));
    assert!(out.ends_with("\n</details>\n"));
    assert!(!out.contains("# T\n"));
}

#[test]
fn allowlist_keeps_only_selected_entries() {
    let entries = vec![
        entry("g", "a/1", None, "1.00 ns", None),
        entry("g", "b/1", None, "2.00 ns", None),
    ];
    let out = Renderer::new("dir").benchmark("g/b/1").render(entries).ok().unwrap();
    assert!(out.contains("`2.00 ns`"));
    assert!(!out.contains("`1.00 ns`"));
}

#[test]
fn thresholds_are_checked_before_anything_else() {
    let error = Renderer::new("dir")
        .change_thresholds(ChangeThresholds::default().improvement_ratio(level(0.5)))
        .render(Vec::new())
        .err()
        .unwrap();
    assert!(matches!(error, RenderError::InvalidImprovementRatio));

    let error = Renderer::new("dir").render(Vec::new()).err().unwrap();
    assert_eq!(error.message(), "No benchmark results found in dir");
}

#[test]
fn baseline_names() {
    assert_eq!(Renderer::new("dir").baseline_name(), "base");
    assert_eq!(Renderer::new("dir").baseline("main").baseline_name(), "main");
    let r = Renderer::new("dir");
    assert_eq!(r.baseline_root, "dir");
    assert_eq!(r.candidate, "new");
    assert_eq!(r.summary_limit, 3);
    let r = r.benchmarks(vec!["a".to_string()]).benchmarks(vec!["b".to_string()]).benchmark("c");
    assert_eq!(r.included_entries, vec!["a", "b", "c"]);
}

#[test]
fn skipped_directories() {
    assert!(is_skipped_directory("reports"));
    assert!(is_skipped_directory(".git"));
    assert!(is_skipped_directory("."));
    assert!(!is_skipped_directory("example_group"));
    assert!(!is_skipped_directory("report"));
    assert!(!is_skipped_directory(""));
}

#[test]
fn inconsistent_changes_are_refused() {
    // A change whose ratio and compare both say 2.0 cannot come from one measurement.
    let refused = ChangeInfo::new(
        level(1.0),
        level(2.0),
        level(2.0),
        "2.00".to_string(),
        "2.00".to_string(),
    );
    assert!(refused.is_none());
    // A negative relative change with a ratio above 1 is refused too.
    let refused = ChangeInfo::new(
        level(-0.5),
        level(2.0),
        level(0.5),
        "2.00".to_string(),
        "0.50".to_string(),
    );
    assert!(refused.is_none());
    // A change whose ratio is not usable is kept: it is shown as not available.
    let kept = ChangeInfo::new(
        level(f64::INFINITY),
        level(f64::INFINITY),
        level(0.0),
        "inf".to_string(),
        "0.00".to_string(),
    );
    assert!(kept.is_some());
}

#[test]
fn improvements_are_worded_faster_and_regressions_slower() {
    let t = ChangeThresholds::default();
    for pe in [-0.9, -0.5, -0.2, -0.1, -0.05, 0.0, 0.05, 0.1, 0.2, 0.5, 3.0] {
        let text = format_change(&Some(change_info(pe)), t);
        if text.starts_with("🚀") || text.starts_with("↗️") {
            assert!(!text.contains("slower"), "{text}");
        }
        if text.starts_with("❌") {
            assert!(!text.contains("faster"), "{text}");
        }
    }
}

#[test]
fn time_units() {
    let unit = |ns: f64| time_unit(level(ns));
    assert_eq!(unit(0.0), TimeUnit::Nanoseconds);
    assert_eq!(unit(999.99), TimeUnit::Nanoseconds);
    assert_eq!(unit(-5.0), TimeUnit::Nanoseconds);
    assert_eq!(unit(1_000.0), TimeUnit::Microseconds);
    assert_eq!(unit(999_999.0), TimeUnit::Microseconds);
    assert_eq!(unit(1_000_000.0), TimeUnit::Milliseconds);
    assert_eq!(unit(1_000_000_000.0), TimeUnit::Seconds);
    assert_eq!(unit(f64::INFINITY), TimeUnit::Seconds);
    assert_eq!(unit(f64::NAN), TimeUnit::Seconds);
    assert_eq!(unit(-f64::NAN), TimeUnit::Seconds);
    assert_eq!(TimeUnit::Microseconds.symbol(), "µs");
    assert_eq!(TimeUnit::Seconds.symbol(), "s");
}

#[test]
fn collapsed_report_rewraps_the_plain_one() {
    let make = || {
        vec![
            entry("g", "f/1", None, "1.00 ns", Some(0.5)),
            entry("g", "f/2", None, "1.00 ns", Some(-0.5)),
        ]
    };
    let plain = Renderer::new("dir").title("T").render(make()).ok().unwrap();
    let collapsed = Renderer::new("dir").title("T").collapsible(true).render(make()).ok().unwrap();
    let rest = plain.strip_prefix("# T\n\n").unwrap();
    assert_eq!(
        collapsed,
        format!("<details>\n<summary>T (❌ 1.50x | 🚀 2.00x)</summary>\n\n{rest}\n</details>\n")
    );
}

#[test]
fn default_options_render_as_render() {
    let make = || vec![entry("g", "f/1", None, "1.00 ns", Some(-0.5))];
    let a = criterion_markdown::render("dir", make(), Vec::new()).ok().unwrap();
    let b = criterion_markdown::render_with_options(
        "dir",
        make(),
        Vec::new(),
        &criterion_markdown::RenderOptions::default(),
    )
    .ok()
    .unwrap();
    assert_eq!(a, b);
}

#[test]
fn allowlist_order_and_repetitions_do_not_matter() {
    let make = || {
        vec![
            entry("g", "a/1", None, "1.00 ns", None),
            entry("g", "b/1", None, "2.00 ns", None),
            entry("g", "c/1", None, "3.00 ns", None),
        ]
    };
    let a = criterion_markdown::render("dir", make(), vec!["g/a/1".to_string(), "g/c/1".to_string()])
        .ok()
        .unwrap();
    let b = criterion_markdown::render(
        "dir",
        make(),
        vec!["g/c/1".to_string(), "g/a/1".to_string(), "g/c/1".to_string()],
    )
    .ok()
    .unwrap();
    assert_eq!(a, b);
    assert!(!a.contains("`2.00 ns`"));
}

#[test]
fn interleaving_groups_does_not_change_the_table() {
    let a = vec![
        entry("x", "f/1", None, "1.00 ns", None),
        entry("y", "f/1", None, "2.00 ns", None),
        entry("x", "f/2", None, "3.00 ns", None),
    ];
    let b = vec![
        entry("y", "f/1", None, "2.00 ns", None),
        entry("x", "f/1", None, "1.00 ns", None),
        entry("x", "f/2", None, "3.00 ns", None),
    ];
    let t = ChangeThresholds::default();
    assert_eq!(
        format_table(&a, "T", false, t, &no_summary()),
        format_table(&b, "T", false, t, &no_summary())
    );
}
