//! Reports rendered from entries as they are read from Criterion output.

use criterion_markdown::{
    render, render_with_options, BenchEntry, ChangeInfo, ChangeThresholds, Level, RenderOptions,
    Renderer,
};

fn level(x: f64) -> Level {
    Level::from_bits(x.to_bits())
}

fn change_info(point_estimate: f64) -> ChangeInfo {
    let ratio = 1.0 + point_estimate;
    let compare = 1.0 / ratio;
    ChangeInfo::new(
        level(point_estimate),
        level(ratio),
        level(compare),
        format!("{:.2}", ratio),
        format!("{:.2}", compare),
    )
    .expect("the quantities of a measured change agree")
}

fn format_time(ns: f64) -> String {
    if ns < 1_000.0 {
        format!("{:.2} ns", ns)
    } else if ns < 1_000_000.0 {
        format!("{:.2} µs", ns / 1_000.0)
    } else if ns < 1_000_000_000.0 {
        format!("{:.2} ms", ns / 1_000_000.0)
    } else {
        format!("{:.2} s", ns / 1_000_000_000.0)
    }
}

struct FixtureSpec<'a> {
    group_id: &'a str,
    function_id: &'a str,
    value_str: Option<&'a str>,
    full_id: &'a str,
    slope_ns: f64,
    mean_ns: f64,
    /// The baseline's mean estimate, when the baseline has this benchmark.
    baseline_mean_ns: Option<f64>,
}

/// The entry read for a benchmark: the slope estimate formatted, and the change of
/// the candidate's mean against the baseline's mean.
fn entry(spec: FixtureSpec<'_>) -> BenchEntry {
    BenchEntry {
        full_id: spec.full_id.to_string(),
        group_id: spec.group_id.to_string(),
        function_id: spec.function_id.to_string(),
        value_str: spec.value_str.map(|v| v.to_string()),
        estimate_text: format_time(spec.slope_ns),
        throughput: None,
        baseline_found: spec.baseline_mean_ns.is_some(),
        change: spec
            .baseline_mean_ns
            .map(|base| change_info(spec.mean_ns / base - 1.0)),
    }
}

/// A benchmark whose baseline was written for a relative change of `change`.
fn fixture(
    group_id: &str,
    function_id: &str,
    full_id: &str,
    slope_ns: f64,
    mean_ns: f64,
    change: Option<f64>,
) -> BenchEntry {
    entry(FixtureSpec {
        group_id,
        function_id,
        value_str: None,
        full_id,
        slope_ns,
        mean_ns,
        baseline_mean_ns: change.map(|c| mean_ns / (1.0 + c)),
    })
}

const DIR: &str = "/tmp/criterion-markdown-fixture";

#[test]
fn renders_markdown_from_fixture_criterion_results() {
    let entries = vec![fixture(
        "example_group",
        "sum/1000",
        "example_group/sum/1000",
        12_000.0,
        12_345.0,
        Some(-0.1),
    )];
    let output = Renderer::new(DIR)
        .baseline("base")
        .render(entries)
        .ok()
        .expect("render should succeed");

    assert!(output.contains("# Benchmarks"));
    assert!(output.contains("## Benchmark Results"));
    assert!(output.contains("### example_group"));
    assert!(output.contains("`sum`"));
    assert!(output.contains("**`1000`**"));
    assert!(output.contains("`12.00 µs`"));
    assert!(output.contains("↗️ **1.11x faster**"));
    assert!(!output.contains("## Summary"));
    assert!(output.contains("## Top improvements"));
    assert!(!output.contains("No benchmark improved or regressed."));
    assert!(!output.contains("## Top regressions"));
    assert!(
        output.find("## Top improvements").unwrap() < output.find("## Benchmark Results").unwrap()
    );
}

#[test]
fn renderer_uses_custom_title() {
    let entries = vec![fixture(
        "example_group",
        "sum/1000",
        "example_group/sum/1000",
        12_000.0,
        12_345.0,
        Some(-0.1),
    )];
    let output = Renderer::new(DIR)
        .title("Parser benchmarks")
        .render(entries)
        .ok()
        .expect("render should succeed");

    assert!(output.starts_with("# Parser benchmarks\n"));
    assert!(!output.contains("# Benchmarks\n"));
}

#[test]
fn renderer_uses_default_baseline_when_available() {
    let entries = vec![fixture(
        "example_group",
        "sum/1000",
        "example_group/sum/1000",
        12_000.0,
        12_345.0,
        Some(-0.5),
    )];
    let output = render(DIR, entries, Vec::new()).ok().expect("render should succeed");

    assert!(output.contains("`12.00 µs`"));
    assert!(output.contains("🚀 **2.00x faster**"));
    assert!(output.contains("## Top improvements"));
}

#[test]
fn omits_comparisons_when_baseline_is_missing() {
    let make = || {
        vec![fixture(
            "missing_change_group",
            "sum/2000",
            "missing_change_group/sum/2000",
            2_000.0,
            2_100.0,
            None,
        )]
    };
    let output = render(DIR, make(), Vec::new()).ok().expect("render should succeed");

    assert!(output.contains("### missing_change_group"));
    assert!(output.contains("`2.00 µs`"));
    assert!(!output.contains("(---)"));
    assert!(!output.contains("improved or regressed"));

    let collapsible = Renderer::new(DIR)
        .title("Missing baseline")
        .collapsible(true)
        .render(make())
        .ok()
        .expect("collapsible render should succeed");
    assert!(collapsible.starts_with("<details>\n<summary>Missing baseline</summary>"));
    assert!(!collapsible.contains("(---)"));
}

#[test]
fn errors_when_explicit_baseline_is_missing() {
    let entries = vec![fixture(
        "missing_baseline_group",
        "sum/2000",
        "missing_baseline_group/sum/2000",
        2_000.0,
        2_100.0,
        None,
    )];
    let error = Renderer::new(DIR)
        .baseline("main")
        .render(entries)
        .err()
        .expect("missing explicit baseline should fail");

    assert!(error.message().contains("Baseline dataset 'main' not found"));
    assert!(error.message().contains(DIR));
}

#[test]
fn renders_placeholder_when_one_benchmark_is_missing_from_baseline() {
    let entries = vec![
        fixture("partial_group", "missing/1", "partial_group/missing/1", 100.0, 100.0, None),
        fixture(
            "partial_group",
            "compared/1",
            "partial_group/compared/1",
            100.0,
            100.0,
            Some(-0.5),
        ),
    ];
    let output = Renderer::new(DIR)
        .baseline("base")
        .render(entries)
        .ok()
        .expect("render should succeed");

    assert!(output.contains("(---)"));
    assert!(output.contains("🚀 **2.00x faster**"));
}

#[test]
fn applies_allowlist_filter() {
    let make = || {
        vec![fixture(
            "example_group",
            "sum/1000",
            "example_group/sum/1000",
            12_000.0,
            12_345.0,
            Some(-0.1),
        )]
    };
    let selected = vec!["example_group/sum/1000".to_string()];
    let output = render(DIR, make(), selected).ok().expect("allowlisted render should succeed");
    assert!(output.contains("### example_group"));

    let excluded = vec!["not-a-real-benchmark".to_string()];
    let err = render(DIR, make(), excluded)
        .err()
        .expect("render should fail when no entries match allowlist");
    assert!(err.message().contains("No benchmark results found"));
}

#[test]
fn renders_special_characters_in_labels() {
    let entries = vec![entry(FixtureSpec {
        group_id: "special_group",
        function_id: "sum-special/10|20",
        value_str: Some("v|1"),
        full_id: "special_group/sum-special/10|20",
        slope_ns: 3_000.0,
        mean_ns: 3_100.0,
        baseline_mean_ns: Some(3_100.0 / 0.95),
    })];
    let output = render(DIR, entries, Vec::new()).ok().expect("render should succeed");

    assert!(output.contains("### special_group"));
    assert!(output.contains("sum-special/10|20"));
    assert!(output.contains("**`v|1`**"));
}

#[test]
fn handles_non_positive_change_ratio_as_not_available() {
    let entries = vec![entry(FixtureSpec {
        group_id: "invalid_ratio_group",
        function_id: "sum/10",
        value_str: None,
        full_id: "invalid_ratio_group/sum/10",
        slope_ns: 100.0,
        mean_ns: 120.0,
        baseline_mean_ns: Some(0.0),
    })];
    let output = Renderer::new(DIR)
        .baseline("base")
        .render(entries)
        .ok()
        .expect("render should succeed");

    assert!(output.contains("⚠ n/a"));
}

#[test]
fn wraps_in_details_summary_when_option_set() {
    let entries = vec![fixture(
        "example_group",
        "sum/1000",
        "example_group/sum/1000",
        12_000.0,
        12_345.0,
        Some(-0.5),
    )];
    let options = RenderOptions {
        title: "Benchmark Results".to_string(),
        collapsible: true,
        baseline: Some("base".to_string()),
    };
    let output = render_with_options(DIR, entries, Vec::new(), &options)
        .ok()
        .expect("render should succeed");

    assert!(output.starts_with("<details>\n<summary>Benchmark Results (🚀 2.00x)</summary>"));
    assert!(output.contains("</summary>"));
    assert!(!output.contains("# Benchmarks"));
    assert!(!output.contains("## Summary"));
    assert!(output.contains("## Top improvements"));
    assert!(output.contains("## Benchmark Results"));
    assert!(output.contains("### example_group"));
    assert!(
        output.find("## Top improvements").unwrap() < output.find("## Benchmark Results").unwrap()
    );
    assert!(
        output.find("## Benchmark Results").unwrap() < output.find("### example_group").unwrap()
    );
    assert!(output.trim_end().ends_with("</details>"));
}

#[test]
fn summary_lists_gain_and_regression() {
    let entries = vec![
        fixture("perf_group", "fast_fn/100", "perf_group/fast_fn/100", 5_000.0, 5_100.0, Some(-0.5)),
        fixture("perf_group", "slow_fn/200", "perf_group/slow_fn/200", 10_000.0, 10_500.0, Some(0.5)),
    ];
    let output = Renderer::new(DIR)
        .baseline("base")
        .render(entries)
        .ok()
        .expect("render should succeed");

    assert!(output.contains("## Top improvements"));
    assert!(output.contains("- `perf_group/fast_fn/100`"));
    assert!(output.contains("## Top regressions"));
    assert!(output.contains("- `perf_group/slow_fn/200`"));
    assert!(output.contains("2.00x faster"));
    assert!(output.contains("1.50x slower"));
}

#[test]
fn summary_limits_and_orders_each_category() {
    let mut entries = Vec::new();
    for (full_id, function_id, change) in [
        ("summary_group/gain_1/1", "gain_1/1", -0.6),
        ("summary_group/gain_2/2", "gain_2/2", -0.5),
        ("summary_group/gain_3/3", "gain_3/3", -0.45),
        ("summary_group/regression_1/1", "regression_1/1", 0.5),
        ("summary_group/regression_2/2", "regression_2/2", 0.3),
        ("summary_group/regression_3/3", "regression_3/3", 0.2),
        ("summary_group/unchanged/4", "unchanged/4", 0.0),
    ] {
        entries.push(fixture("summary_group", function_id, full_id, 100.0, 100.0, Some(change)));
    }
    let output = Renderer::new(DIR)
        .baseline("base")
        .summary_limit(2)
        .render(entries)
        .ok()
        .expect("render with summary limit should succeed");
    let summary = output
        .split_once("## Benchmark Results")
        .expect("summary should precede benchmark results")
        .0;

    let gain_1 = summary.find("summary_group/gain_1/1").unwrap();
    let gain_2 = summary.find("summary_group/gain_2/2").unwrap();
    let regression_1 = summary.find("summary_group/regression_1/1").unwrap();
    let regression_2 = summary.find("summary_group/regression_2/2").unwrap();
    assert!(gain_1 < gain_2);
    assert!(regression_1 < regression_2);
    assert!(!summary.contains("summary_group/gain_3/3"));
    assert!(!summary.contains("summary_group/regression_3/3"));
    assert!(!summary.contains("summary_group/unchanged/4"));
}

#[test]
fn summary_reports_when_no_benchmark_changed() {
    let entries = vec![
        fixture(
            "summary_group",
            "neutral_faster/1",
            "summary_group/neutral_faster/1",
            100.0,
            100.0,
            Some(-0.05),
        ),
        fixture(
            "summary_group",
            "neutral_slower/2",
            "summary_group/neutral_slower/2",
            100.0,
            100.0,
            Some(0.05),
        ),
    ];
    let output = Renderer::new(DIR)
        .baseline("base")
        .render(entries)
        .ok()
        .expect("unchanged render should succeed");

    assert!(!output.contains("## Summary"));
    assert!(output.contains("# Benchmarks\n\nNo benchmark improved or regressed."));
    assert!(output.contains("➖ **1.05x faster**"));
    assert!(output.contains("➖ **1.05x slower**"));
    assert!(!output.contains("## Top improvements"));
    assert!(!output.contains("## Top regressions"));
}

#[test]
fn disabled_summary_omits_no_change_message() {
    let entries = vec![fixture(
        "summary_group",
        "unchanged/1",
        "summary_group/unchanged/1",
        100.0,
        100.0,
        Some(0.0),
    )];
    let output = Renderer::new(DIR)
        .baseline("base")
        .summary_limit(0)
        .render(entries)
        .ok()
        .expect("render without summary should succeed");

    assert!(!output.contains("## Summary"));
    assert!(!output.contains("No benchmark improved or regressed."));
}

#[test]
fn computes_change_from_selected_baseline() {
    // The candidate's mean is 120 ns; the "previous" baseline's mean is 240 ns.
    let entries = vec![entry(FixtureSpec {
        group_id: "example_group",
        function_id: "sum/1000",
        value_str: None,
        full_id: "example_group/sum/1000",
        slope_ns: 120.0,
        mean_ns: 120.0,
        baseline_mean_ns: Some(240.0),
    })];
    let options = RenderOptions {
        baseline: Some("previous".to_string()),
        ..Default::default()
    };
    let output = render_with_options(DIR, entries, Vec::new(), &options)
        .ok()
        .expect("render should succeed");

    assert!(output.contains("🚀 **2.00x faster**"));
    assert!(!output.contains("1.50x slower"));
}

#[test]
fn renderer_builder_configures_the_full_render() {
    let included = ["builder_group/fast/1", "builder_group/slow/2"];
    let excluded = "builder_group/excluded/3";
    let mut entries = Vec::new();
    for (full_id, function_id) in [
        (included[0], "fast/1"),
        (included[1], "slow/2"),
        (excluded, "excluded/3"),
    ] {
        // The "comparison" dataset measures 100 ns against 200 ns in "main".
        entries.push(entry(FixtureSpec {
            group_id: "builder_group",
            function_id,
            value_str: None,
            full_id,
            slope_ns: 100.0,
            mean_ns: 100.0,
            baseline_mean_ns: Some(200.0),
        }));
    }

    let output = Renderer::new(DIR)
        .candidate("comparison")
        .baseline("main")
        .benchmark(included[0])
        .benchmarks(vec![included[1].to_string()])
        .title("Builder Results")
        .collapsible(true)
        .render(entries)
        .ok()
        .expect("builder render should succeed");

    assert!(output.starts_with("<details>\n<summary>Builder Results (🚀 2.00x)</summary>"));
    assert!(output.contains("`100.00 ns`"));
    assert!(output.contains("🚀 **2.00x faster**"));
    assert!(output.contains("`builder_group/fast/1`"));
    assert!(output.contains("`builder_group/slow/2`"));
    assert!(!output.contains(excluded));
}

#[test]
fn renderer_loads_baseline_from_separate_root() {
    // The candidate measures 100 ns; the baseline in the other root measures 200 ns.
    let entries = vec![entry(FixtureSpec {
        group_id: "external_group",
        function_id: "function/1000",
        value_str: None,
        full_id: "external_group/function/1000",
        slope_ns: 100.0,
        mean_ns: 100.0,
        baseline_mean_ns: Some(200.0),
    })];
    let output = Renderer::new("/tmp/candidate-root")
        .baseline_root("/tmp/baseline-root")
        .baseline("main")
        .render(entries)
        .ok()
        .expect("render with external baseline should succeed");

    assert!(output.contains("🚀 **2.00x faster**"));
}

#[test]
fn renderer_finds_default_baseline_in_separate_root() {
    let entries = vec![entry(FixtureSpec {
        group_id: "external_group",
        function_id: "function/1000",
        value_str: None,
        full_id: "external_group/function/1000",
        slope_ns: 100.0,
        mean_ns: 100.0,
        baseline_mean_ns: Some(200.0),
    })];
    let output = Renderer::new("/tmp/candidate-default-root")
        .baseline_root("/tmp/baseline-default-root")
        .render(entries)
        .ok()
        .expect("render with detected external baseline should succeed");

    assert!(output.contains("🚀 **2.00x faster**"));
}

#[test]
fn renderer_uses_custom_change_thresholds() {
    let entries = vec![
        fixture("threshold_group", "faster/1", "threshold_group/faster/1", 100.0, 100.0, Some(-0.1)),
        fixture("threshold_group", "slower/2", "threshold_group/slower/2", 100.0, 100.0, Some(0.05)),
    ];
    let thresholds = ChangeThresholds::default()
        .improvement_ratio(level(1.1))
        .strong_improvement_ratio(level(1.5))
        .regression_ratio(level(0.96));
    let output = Renderer::new(DIR)
        .baseline("base")
        .change_thresholds(thresholds)
        .render(entries)
        .ok()
        .expect("render with custom thresholds should succeed");

    assert!(output.contains("↗️ **1.11x faster**"));
    assert!(output.contains("❌ *1.05x slower*"));
}

#[test]
fn renderer_rejects_invalid_change_thresholds() {
    let make = || vec![fixture("threshold_group", "sum/1", "threshold_group/sum/1", 100.0, 100.0, None)];

    let invalid_improvement = ChangeThresholds::default().improvement_ratio(level(0.9));
    let error = Renderer::new(DIR)
        .change_thresholds(invalid_improvement)
        .render(make())
        .err()
        .expect("invalid improvement ratio should fail");
    assert!(error.message().contains("improvement ratio"));

    let invalid_regression = ChangeThresholds::default().regression_ratio(level(1.1));
    let error = Renderer::new(DIR)
        .change_thresholds(invalid_regression)
        .render(make())
        .err()
        .expect("invalid regression ratio should fail");
    assert!(error.message().contains("regression ratio"));

    let invalid_strong_improvement = ChangeThresholds::default().strong_improvement_ratio(level(1.05));
    let error = Renderer::new(DIR)
        .change_thresholds(invalid_strong_improvement)
        .render(make())
        .err()
        .expect("invalid strong improvement ratio should fail");
    assert!(error.message().contains("strong improvement ratio"));
}

#[test]
fn explicit_baseline_found_only_for_unselected_benchmarks_is_no_error() {
    let entries = vec![
        fixture("g", "selected/1", "g/selected/1", 100.0, 100.0, None),
        fixture("g", "other/1", "g/other/1", 100.0, 100.0, Some(-0.5)),
    ];
    let output = Renderer::new(DIR)
        .baseline("main")
        .benchmark("g/selected/1")
        .render(entries)
        .ok()
        .expect("a baseline found for some benchmark is no error");
    assert!(output.contains("### g"));
    assert!(!output.contains("g/other/1"));
    assert!(!output.contains("(---)"));
}

#[test]
fn unreadable_baseline_estimates_show_a_placeholder() {
    // The baseline has an estimates file for the benchmark, but it could not be read.
    let mut unreadable = fixture("g", "sum/1", "g/sum/1", 100.0, 100.0, None);
    unreadable.baseline_found = true;
    let output = Renderer::new(DIR)
        .baseline("main")
        .render(vec![unreadable])
        .ok()
        .expect("an unreadable baseline is no missing baseline");
    assert!(output.contains("(---)"));
    assert!(!output.contains("improved or regressed"));
}
