use pix_mcp::changes::EventCountChange;
use pix_mcp::columns::{compare_columns, event_column, gpu_duration_column, EventColumnComparison};
use pix_mcp::compare::{
    after_counter_exports, bounded_compare_warning, build_event_structure_comparison,
    capture_side, compare_gpu_timing, compare_limits, event_matches, finish_comparison,
    metadata_comparison, require_distinct_captures, timing_samples, CaptureSide,
    CompareAnalysisMode, CompareCapturesArgs, CompareReport, ComparisonFigures,
    EventComparisonScope, EventSequenceComparison, EventStructureComparison, GpuTimingComparison,
    TimingSums, COMPARE_MAX_CHANGES,
};
use pix_mcp::compare_answer::{fit_compare_report, MAX_COMPARE_REPORT_BYTES};
use pix_mcp::compare_plan::ComparisonPlan;
use pix_mcp::finite::Double;
use pix_mcp::exports::{
    comparison_from_rows, parse_comparison_csv_bytes, ComparisonReader,
    MAX_COMPARE_EVENT_FIELD_BYTES,
};
use pix_mcp::pixtool::FileTime;
use pix_mcp::sequences::ComparisonCsv;

fn sums(csv: &ComparisonCsv) -> TimingSums {
    let samples: Vec<f64> = timing_samples(csv).into_iter().map(f64::from_bits).collect();
    let sum: f64 = samples.iter().sum();
    TimingSums {
        sum: double(sum),
        mean: double(sum / samples.len() as f64),
    }
}

fn double(value: f64) -> Double {
    Double {
        bits: value.to_bits(),
        json: serde_json::to_string(&value).expect("a JSON number"),
    }
}

fn sum_percent(a: &TimingSums, b: &TimingSums) -> String {
    let baseline = f64::from_bits(a.sum.bits);
    format!("{:.2}%", (f64::from_bits(b.sum.bits) - baseline) / baseline * 100.0)
}

fn timing(a: &ComparisonCsv, b: &ComparisonCsv) -> Option<GpuTimingComparison> {
    let baseline = sums(a);
    let comparison = sums(b);
    let percent = sum_percent(&baseline, &comparison);
    compare_gpu_timing(a, b, baseline, comparison, percent)
}

fn match_percent(a: &ComparisonCsv, b: &ComparisonCsv) -> String {
    let (compared, matches) = event_matches(a, b);
    format!("{:.2}%", matches as f64 / compared as f64 * 100.0)
}

fn structure(a: &ComparisonCsv, b: &ComparisonCsv, max_changes: usize) -> EventStructureComparison {
    build_event_structure_comparison(a, b, max_changes, match_percent(a, b))
}

fn side(path: &str) -> CaptureSide {
    CaptureSide {
        path: path.to_string(),
        size_bytes: 1,
        modified: None,
    }
}

fn texts(items: &[&str]) -> Vec<String> {
    items.iter().map(|item| item.to_string()).collect()
}

#[test]
fn structural_comparison_detects_insertions_without_global_id_noise() {
    let baseline = parse_comparison_csv_bytes(
        b"Queue ID,Name,Global ID,GPU Duration\n0,Begin,1,1\n0,Draw A,2,2\n0,Draw A,3,3\n0,End,4,4\n",
        100,
    )
    .expect("baseline CSV");
    let comparison = parse_comparison_csv_bytes(
        b"Queue ID,Name,Global ID,GPU Duration\n0,Begin,101,1\n0,Draw A,102,2\n0,Dispatch,103,5\n0,Draw A,104,3\n0,End,105,4\n",
        100,
    )
    .expect("comparison CSV");

    let structure = structure(&baseline, &comparison, 20);
    assert_eq!(structure.scope, EventComparisonScope::FullCapture);
    assert_eq!(structure.total_event_difference, 1);
    assert_eq!(structure.sequence.common_prefix_events, 2);
    assert_eq!(structure.changed_event_kinds, 1);
    assert_eq!(structure.top_changes[0].event_name, "Dispatch");
    assert_eq!(structure.top_changes[0].difference, 1);

    let timing = timing(&baseline, &comparison).expect("timing aggregate");
    assert_eq!(f64::from_bits(timing.baseline.sum.bits), 10.0);
    assert_eq!(f64::from_bits(timing.comparison.sum.bits), 15.0);
    assert_eq!(timing.sum_difference_percent.as_deref(), Some("50.00%"));
}

#[test]
fn structural_comparison_reports_prefix_scope_when_event_bound_is_hit() {
    let csv = b"Queue ID,Name,Global ID,GPU Duration\n0,Begin,1,1\n0,Draw,2,2\n0,End,3,3\n";
    let baseline = parse_comparison_csv_bytes(csv, 2).expect("bounded CSV");
    let comparison = parse_comparison_csv_bytes(csv, 2).expect("bounded CSV");
    let structure = structure(&baseline, &comparison, 20);
    assert_eq!(structure.scope, EventComparisonScope::Prefix);
    assert!(structure.truncated);
    assert_eq!(structure.baseline_total_events, 3);
    assert_eq!(structure.baseline_analyzed_events, 2);
    assert_eq!(structure.sequence.common_suffix_events, None);
    assert!(timing(&baseline, &comparison).is_none());
}

#[test]
fn comparison_does_not_treat_gpu_timestamps_as_durations() {
    let csv = b"Queue ID,Name,Global ID,GPU Start Time\n0,Begin,1,1000000\n0,End,2,2000000\n";
    let baseline = parse_comparison_csv_bytes(csv, 10).expect("baseline CSV");
    let comparison = parse_comparison_csv_bytes(csv, 10).expect("comparison CSV");
    assert!(timing(&baseline, &comparison).is_none());
}

#[test]
fn comparison_file_parser_streams_and_handles_utf8_bom() {
    let mut bytes = vec![0xEF, 0xBB, 0xBF];
    bytes.extend_from_slice(b"Queue ID,Name,Global ID,GPU Duration (ns)\n0,Draw,1,42\n");

    let parsed = parse_comparison_csv_bytes(&bytes, 10).expect("comparison CSV");
    assert_eq!(parsed.total_events, 1);
    assert_eq!(parsed.events.len(), 1);
    assert_eq!(parsed.events[0].identity.name, "Draw");
    assert_eq!(parsed.events[0].gpu_duration.map(f64::from_bits), Some(42.0));

    let header = texts(&["Queue ID", "Name", "Global ID", "GPU Duration (ns)"]);
    let mut reader = ComparisonReader::start(Some(header), 10).expect("an event list");
    reader.row(Some(texts(&["0", " Draw ", "1", "42"]))).expect("a row");
    reader.row(Some(texts(&["0", "Draw", "2", "1e999"]))).expect("a row");
    let streamed = reader.finish().expect("stream comparison CSV");
    assert_eq!(streamed.total_events, 2);
    assert_eq!(streamed.events[0].identity.name, "Draw");
    assert_eq!(streamed.events[0].gpu_duration.map(f64::from_bits), Some(42.0));
    assert_eq!(streamed.events[1].gpu_duration, None);
    assert_eq!(
        streamed.gpu_duration_column.as_deref(),
        Some("GPU Duration (ns)")
    );
}

#[test]
fn exported_event_lists_are_checked() {
    let refused = |bytes: &[u8]| {
        parse_comparison_csv_bytes(bytes, 10)
            .expect_err("not an event list")
            .to_text()
    };
    assert_eq!(refused(b""), "Empty event-list CSV");
    assert_eq!(refused(b"\xFF\n1\n"), "Invalid event-list CSV header");
    assert_eq!(
        refused(b"Name,Global ID\na,1\n"),
        "CSV output is not a PIX event list: required column \"queue id\" is missing"
    );
    assert_eq!(
        refused(b"Queue ID,Name,Global ID\n"),
        "Event-list CSV contains no events"
    );
    assert_eq!(
        refused(b"Queue ID,Name,Global ID\n0,a,1\n0,b\n"),
        "Invalid event-list CSV record at row 2"
    );
    let wide = format!("Queue ID,Name,Global ID,{}\n", "x".repeat(4097));
    assert_eq!(
        refused(wide.as_bytes()),
        "Event-list header exceeds comparison limits (4096 columns, 524288 total bytes, 4096 bytes per column)"
    );
    let long = format!("Queue ID,Name,Global ID\n0,{},1\n", "x".repeat(4097));
    assert_eq!(
        refused(long.as_bytes()),
        "Event 1 contains a queue/name field larger than the comparison limit of 4096 bytes"
    );
    assert!(parse_comparison_csv_bytes(long.as_bytes(), 0).is_ok());

    let header = Some(texts(&["Queue ID", "Name", "Global ID"]));
    let rows: Vec<Option<Vec<String>>> =
        (0..250_001).map(|_| Some(texts(&["0", "a", "1"]))).collect();
    assert_eq!(
        comparison_from_rows(header, rows, 1).expect_err("too many").to_text(),
        "Event-list CSV contains more than the supported maximum of 250000 rows"
    );
}

#[test]
fn changes_are_ranked_by_difference_then_name() {
    let a = parse_comparison_csv_bytes(
        b"Queue ID,Name,Global ID\n1,Z,1\n1,Z,2\n0,B,3\n0,A,4\n0,Same,5\n",
        100,
    )
    .expect("baseline");
    let b = parse_comparison_csv_bytes(
        b"Queue ID,Name,Global ID\n0,Same,1\n0,New,2\n1,Z,3\n1,Z,4\n1,Z,5\n1,Z,6\n",
        100,
    )
    .expect("comparison");
    let result = structure(&a, &b, 2);
    assert_eq!(result.changed_event_kinds, 4);
    assert!(result.changes_truncated);
    assert_eq!(result.top_changes.len(), 2);
    assert_eq!(result.top_changes[0].event_name, "Z");
    assert_eq!(result.top_changes[0].difference, 2);
    assert_eq!(result.top_changes[0].baseline_count, 2);
    assert_eq!(result.top_changes[0].comparison_count, 4);
    assert_eq!(result.top_changes[1].event_name, "A");
    assert_eq!(result.top_changes[1].difference, -1);

    let all = structure(&a, &b, 50);
    let swapped = structure(&b, &a, 50);
    assert_eq!(
        swapped.sequence.exact_position_matches,
        all.sequence.exact_position_matches
    );
    assert_eq!(swapped.sequence.common_prefix_events, all.sequence.common_prefix_events);
    assert_eq!(swapped.sequence.common_suffix_events, all.sequence.common_suffix_events);
    let names: Vec<&str> = all.top_changes.iter().map(|c| c.event_name.as_str()).collect();
    assert_eq!(names, vec!["Z", "A", "B", "New"]);
    for (x, y) in all.top_changes.iter().zip(&swapped.top_changes) {
        assert_eq!(x.event_name, y.event_name);
        assert_eq!(x.difference, -y.difference);
    }
    let same = structure(&a, &a, 50);
    assert_eq!(same.changed_event_kinds, 0);
    assert_eq!(same.sequence.common_prefix_events, 5);
    assert_eq!(same.sequence.common_suffix_events, Some(0));
    assert_eq!(same.sequence.exact_position_match_percent, "100.00%");
}

#[test]
fn sequences_share_a_beginning_and_an_end() {
    let a = parse_comparison_csv_bytes(
        b"Queue ID,Name,Global ID\n0,A,1\n0,B,2\n0,C,3\n0,D,4\n",
        100,
    )
    .expect("baseline");
    let b = parse_comparison_csv_bytes(
        b"Queue ID,Name,Global ID\n0,A,1\n0,X,2\n0,Y,3\n0,C,4\n0,D,5\n",
        100,
    )
    .expect("comparison");
    let result = structure(&a, &b, 10);
    assert_eq!(result.sequence.compared_positions, 4);
    assert_eq!(result.sequence.exact_position_matches, 1);
    assert_eq!(result.sequence.common_prefix_events, 1);
    assert_eq!(result.sequence.common_suffix_events, Some(2));
    assert_eq!(result.sequence.exact_position_match_percent, "25.00%");
}

#[test]
fn columns_are_compared_by_their_names() {
    let a = texts(&["Queue ID", "Old", "Name "]);
    let b = texts(&["QUEUE ID", " name", "Zeta", "alpha", "ALPHA"]);
    let columns = compare_columns(&a, &b);
    assert_eq!(columns.added, texts(&["ALPHA", "Zeta"]));
    assert_eq!(columns.removed, texts(&["Old"]));
    assert_eq!(columns.added_count, 2);
    assert!(!columns.truncated);

    let many: Vec<String> = (0..60).map(|n| format!("c{n:02}")).collect();
    let wide = compare_columns(&a, &many);
    assert_eq!(wide.added_count, 60);
    assert_eq!(wide.added.len(), 50);
    assert!(wide.truncated);
    assert_eq!(event_column(&a, "name").expect("a column"), 2);
    assert_eq!(
        event_column(&a, "Global ID").expect_err("missing").to_text(),
        "PIX event list is missing the \"Global ID\" column"
    );
}

#[test]
fn duration_columns_may_have_a_unit() {
    let find = |name: &str| gpu_duration_column(&texts(&["Name", name]));
    assert_eq!(find("GPU Time"), Some((1, "GPU Time".to_string())));
    assert_eq!(find(" gpu duration [ns] "), Some((1, "gpu duration [ns]".to_string())));
    assert_eq!(find("GPU Duration(ms)"), Some((1, "GPU Duration(ms)".to_string())));
    assert_eq!(find("GPU Duration total"), None);
    assert_eq!(find("CPU Duration"), None);
}

#[test]
fn comparison_report_trims_pathological_fields_to_inline_budget() {
    let pathological_name = "\u{1}".repeat(MAX_COMPARE_EVENT_FIELD_BYTES);
    let top_changes: Vec<EventCountChange> = (0..COMPARE_MAX_CHANGES)
        .map(|index| EventCountChange {
            queue_id: "0".to_string(),
            event_name: format!("{pathological_name}{index}"),
            baseline_count: 0,
            comparison_count: 1,
            difference: 1,
        })
        .collect();
    let report = CompareReport {
        success: true,
        capture_a: side("a.wpix"),
        capture_b: side("b.wpix"),
        comparison: metadata_comparison(1, 1, "0.00%".to_string()),
        analysis_mode: CompareAnalysisMode::EventStructure,
        event_structure: Some(EventStructureComparison {
            scope: EventComparisonScope::FullCapture,
            baseline_total_events: 1,
            comparison_total_events: 1,
            total_event_difference: 0,
            baseline_analyzed_events: 1,
            comparison_analyzed_events: 1,
            truncated: false,
            sequence: EventSequenceComparison {
                compared_positions: 1,
                exact_position_matches: 1,
                exact_position_match_percent: "100.00%".to_string(),
                common_prefix_events: 1,
                common_suffix_events: Some(0),
            },
            columns: EventColumnComparison {
                added_count: 0,
                removed_count: 0,
                added: Vec::new(),
                removed: Vec::new(),
                truncated: false,
            },
            changed_event_kinds: COMPARE_MAX_CHANGES,
            changes_truncated: false,
            top_changes,
        }),
        gpu_timing: None,
        warnings: Vec::new(),
        suggestion: "Inspect changes".to_string(),
    };

    let fitted = fit_compare_report(report).expect("fit comparison report");
    assert!(fitted.to_json().len() <= MAX_COMPARE_REPORT_BYTES);
    let structure = fitted.event_structure.expect("event structure");
    assert!(structure.changes_truncated);
    assert!(structure.top_changes.len() < COMPARE_MAX_CHANGES);
}

#[test]
fn reports_are_trimmed_least_important_first() {
    let csv = b"Queue ID,Name,Global ID,GPU Duration\n0,A,1,1\n";
    let other = b"Queue ID,Name,Global ID,GPU Duration,Extra\n0,B,1,1,9\n";
    let a = parse_comparison_csv_bytes(csv, 10).expect("baseline");
    let b = parse_comparison_csv_bytes(other, 10).expect("comparison");
    let figures = ComparisonFigures {
        match_percent: match_percent(&a, &b),
        baseline: sums(&a),
        comparison: sums(&b),
        sum_percent: "0.00%".to_string(),
    };
    let report = finish_comparison(
        side("a.wpix"),
        side("b.wpix"),
        metadata_comparison(1, 1, "0.00%".to_string()),
        Ok(a),
        Ok(b),
        figures,
        Vec::new(),
        true,
        true,
        10,
        10,
    );
    assert_eq!(report.analysis_mode, CompareAnalysisMode::EventStructure);
    assert!(report.gpu_timing.is_some());
    assert!(report.warnings.is_empty());
    let json: serde_json::Value = serde_json::from_str(&report.to_json()).expect("valid JSON");
    assert_eq!(json["analysis_mode"], "event_structure");
    assert_eq!(json["capture_a"]["modified"], serde_json::Value::Null);
    assert_eq!(json["event_structure"]["scope"], "full_capture");
    assert_eq!(json["event_structure"]["sequence"]["common_suffix_events"], 0);
    assert_eq!(json["event_structure"]["top_changes"][0]["difference"], -1);
    assert_eq!(json["event_structure"]["columns"]["added"][0], "Extra");
    assert_eq!(json["gpu_timing"]["baseline"]["sum"], 1.0);
    assert_eq!(json["gpu_timing"]["sum_difference_percent"], "0.00%");

    let mut report = fit_compare_report(report).expect("small enough");
    assert!(report.gpu_timing.is_some());
    report.suggestion = "s".repeat(MAX_COMPARE_REPORT_BYTES - 2300);
    let mut report = fit_compare_report(report).expect("still small enough");
    assert!(report.gpu_timing.is_some());
    let room = MAX_COMPARE_REPORT_BYTES - report.to_json().len();
    report.suggestion.push_str(&"s".repeat(room + 1));
    let mut report = fit_compare_report(report).expect("without a change");
    let structure = report.event_structure.as_ref().expect("event structure");
    assert_eq!(structure.top_changes.len(), 1);
    assert!(structure.changes_truncated && !structure.columns.truncated);
    let change = structure.top_changes[0].to_json().len();
    let room = MAX_COMPARE_REPORT_BYTES - report.to_json().len();
    report.suggestion.push_str(&"s".repeat(room + change + 1));
    let mut report = fit_compare_report(report).expect("without columns");
    let structure = report.event_structure.as_ref().expect("event structure");
    assert_eq!(structure.top_changes.len(), 0);
    assert!(structure.columns.truncated && structure.columns.added.is_empty());
    assert!(report.gpu_timing.is_some());
    let room = MAX_COMPARE_REPORT_BYTES - report.to_json().len();
    report.suggestion.push_str(&"s".repeat(room + 1));
    let mut report = fit_compare_report(report).expect("without timing");
    assert!(report.gpu_timing.is_none());
    assert_eq!(
        report.warnings,
        vec!["GPU timing aggregate was omitted to keep the comparison response within 1 MiB."]
    );
    let room = MAX_COMPARE_REPORT_BYTES - report.to_json().len();
    report.suggestion.push_str(&"s".repeat(room + 1));
    assert_eq!(
        fit_compare_report(report).expect_err("too large").to_text(),
        "Capture comparison exceeded its 1048576 byte inline response budget"
    );
}

#[test]
fn failed_exports_leave_the_files() {
    let figures = ComparisonFigures {
        match_percent: String::new(),
        baseline: TimingSums { sum: double(0.0), mean: double(0.0) },
        comparison: TimingSums { sum: double(0.0), mean: double(0.0) },
        sum_percent: String::new(),
    };
    let report = finish_comparison(
        side("a.wpix"),
        side("b.wpix"),
        metadata_comparison(10, 4, "-60.00%".to_string()),
        Err("no replay".to_string()),
        Err("no device".to_string()),
        figures,
        vec!["before".to_string()],
        true,
        false,
        10,
        10,
    );
    assert_eq!(report.analysis_mode, CompareAnalysisMode::MetadataOnly);
    assert_eq!(
        report.warnings,
        vec![
            "before",
            "Baseline event export failed: no replay",
            "Comparison event export failed: no device",
        ]
    );
    assert_eq!(report.comparison.size_difference_bytes, -6);
    assert!(!report.comparison.size_increased);
    assert!(report.suggestion.starts_with("Only metadata could be compared."));
}

#[test]
fn counter_exports_are_retried_together() {
    assert!(after_counter_exports(&None, &None).is_none());
    let warnings = after_counter_exports(&None, &Some("busy".to_string())).expect("a retry");
    assert_eq!(
        warnings,
        vec![
            "Comparison counter export failed: busy",
            "Retrying both event exports without counters so structural comparison remains available.",
        ]
    );
    let long = bounded_compare_warning("Prefix", &"e".repeat(10_000));
    assert_eq!(long.len(), 8192);
    assert!(long.starts_with("Prefix: eee") && long.ends_with("…[truncated]"));
}

#[test]
fn sizes_and_times_are_compared() {
    let largest = metadata_comparison(0, u64::MAX, "0.00%".to_string());
    assert_eq!(largest.size_difference_bytes, i64::MAX);
    assert!(largest.size_increased);
    let smallest = metadata_comparison(u64::MAX, 0, "-100.00%".to_string());
    assert_eq!(smallest.size_difference_bytes, i64::MIN);
    let early = capture_side("a".to_string(), 1, Some(FileTime { seconds: -1, nanos: 5 }));
    assert_eq!(early.modified, Some(0));
    let late = capture_side("a".to_string(), 1, Some(FileTime { seconds: 77, nanos: 5 }));
    assert_eq!(late.modified, Some(77));
}

#[test]
fn bounds_of_a_comparison_are_checked() {
    let mut args = CompareCapturesArgs {
        capture_a: "a".to_string(),
        capture_b: "b".to_string(),
        include_counters: None,
        max_events: None,
        max_changes: None,
    };
    assert_eq!(compare_limits(&args).expect("defaults"), (20_000, 20));
    args.max_events = Some(50_001);
    assert_eq!(
        compare_limits(&args).expect_err("events").to_text(),
        "max_events must be between 1 and 50000"
    );
    args.max_events = Some(1);
    args.max_changes = Some(0);
    assert_eq!(
        compare_limits(&args).expect_err("changes").to_text(),
        "max_changes must be between 1 and 50"
    );
    assert!(require_distinct_captures("a", "a").is_err());
    assert!(require_distinct_captures("a", "b").is_ok());
}

#[test]
fn comparisons_retry_without_counters_once() {
    let args = CompareCapturesArgs {
        capture_a: "a".to_string(),
        capture_b: "b".to_string(),
        include_counters: Some(true),
        max_events: Some(7),
        max_changes: None,
    };
    let plan = ComparisonPlan::new(&args).expect("a plan");
    assert_eq!(plan.max_events(), 7);
    assert_eq!(plan.counters().as_deref(), Some("*"));
    let (plan, again) = plan.after_exports(&None, &Some("busy".to_string()));
    assert!(again && !plan.with_counters());
    assert_eq!(plan.counters(), None);
    let (plan, again) = plan.after_exports(&Some("still busy".to_string()), &None);
    assert!(!again);

    let bytes = b"Queue ID,Name,Global ID,GPU Duration\n0,A,1,1\n";
    let a = parse_comparison_csv_bytes(bytes, 7).expect("baseline");
    let b = parse_comparison_csv_bytes(bytes, 7).expect("comparison");
    let figures = ComparisonFigures {
        match_percent: match_percent(&a, &b),
        baseline: sums(&a),
        comparison: sums(&b),
        sum_percent: "0.00%".to_string(),
    };
    let report = plan
        .finish(
            side("a.wpix"),
            side("b.wpix"),
            metadata_comparison(1, 1, "0.00%".to_string()),
            Ok(a),
            Ok(b),
            figures,
        )
        .expect("a report");
    assert!(report.gpu_timing.is_none());
    assert_eq!(
        report.warnings,
        vec![
            "Comparison counter export failed: busy",
            "Retrying both event exports without counters so structural comparison remains available.",
            "GPU timing comparison is unavailable because counter export failed; structural results come from the counter-free retry.",
        ]
    );
}

#[test]
fn an_empty_capture_has_no_percentage() {
    let detail = metadata_comparison(0, 5, "inf%".to_string());
    assert_eq!(detail.size_difference_bytes, 5);
    assert_eq!(detail.size_difference_percent, "0.00%");
    let detail = metadata_comparison(4, 5, "25.00%".to_string());
    assert_eq!(detail.size_difference_bytes, 1);
    assert_eq!(detail.size_difference_percent, "25.00%");
}

#[test]
fn timing_counts_its_samples() {
    let a = b"Queue ID,Name,Global ID,GPU Duration\n0,A,1,1\n0,B,2,\n0,C,3,3\n";
    let b = b"Queue ID,Name,Global ID,GPU Duration\n0,A,1,4\n";
    let a = parse_comparison_csv_bytes(a, 10).expect("baseline");
    let b = parse_comparison_csv_bytes(b, 10).expect("comparison");
    let timing = timing(&a, &b).expect("a timing");
    assert_eq!((timing.baseline.samples, timing.comparison.samples), (2, 1));
    assert_eq!(f64::from_bits(timing.baseline.mean.bits), 2.0);
    let none = b"Queue ID,Name,Global ID,GPU Duration\n0,A,1,\n";
    let none = parse_comparison_csv_bytes(none, 10).expect("no durations");
    let made_up = || TimingSums { sum: double(1.0), mean: double(1.0) };
    assert!(compare_gpu_timing(&a, &none, made_up(), made_up(), String::new()).is_none());
}
