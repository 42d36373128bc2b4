use pix_mcp::analysis::{
    accept_capture_file, accept_command, analyze_report, capture_not_found, check_counter_limit, check_playback, counters_report, is_counter_output_line, require_capture_path, run_analysis_report, unusable_artifact, CommandOutput, AnalyzeReport, CountersReport, RunAnalysisReport,
};
use pix_mcp::analysis_answer::{
    accept_analyze_report, accept_counters_report, fit_run_analysis_report,
};
use pix_mcp::diagnostics::{
    accepted_status, bounded_diagnostic_lines, classify_analysis_output, combined_process_output,
    line_indicates_command_failure, line_reports_issue, reject_incomplete_process_output,
    validate_artifact_command_output, ArtifactProblem,
};
use pix_mcp::events::EventsPreview;
use pix_mcp::failure::Failure;

const PROCESS_OUTPUT_TRUNCATION_MARKER: &str = "[pix-mcp: process output truncated]";

fn output(stdout: &str, stderr: &str, success: bool, exit_code: Option<i32>) -> CommandOutput {
    CommandOutput {
        success,
        exit_code,
        status: "exit status".to_string(),
        stdout: stdout.to_string(),
        stderr: stderr.to_string(),
        public_stdout: stdout.to_string(),
        public_stderr: stderr.to_string(),
    }
}

#[test]
fn test_analysis_classifier_ignores_zero_and_negated_counts() {
    let stdout = "0 errors\nNo warnings\nPlayback completed without errors";
    let stderr = "error count: 0\nwarning count: 0\nNo errors or warnings";
    let (errors, warnings) = classify_analysis_output(stdout, stderr);
    assert!(errors.is_empty(), "unexpected errors: {errors:?}");
    assert!(warnings.is_empty(), "unexpected warnings: {warnings:?}");
}

#[test]
fn test_analysis_classifier_detects_real_issues_and_combines_stderr() {
    let stdout = "ERROR: invalid resource state\nwarning: expensive barrier";
    let stderr = "fatal playback failure";
    let (errors, warnings) = classify_analysis_output(stdout, stderr);
    assert_eq!(errors.len(), 2);
    assert_eq!(warnings, vec!["warning: expensive barrier"]);

    let combined = combined_process_output(stdout, stderr);
    assert!(combined.contains("stdout:"));
    assert!(combined.contains("stderr:\nfatal playback failure"));
}

#[test]
fn test_analysis_classifier_uses_error_tokens_without_hiding_later_errors() {
    let (errors, warnings) =
        classify_analysis_output("ErrorScale,1.0\nNo errors; ERROR: device removed", "");
    assert_eq!(errors, vec!["No errors; ERROR: device removed"]);
    assert!(warnings.is_empty());
}

#[test]
fn classified_lines_are_sorted_and_distinct() {
    let (errors, warnings) = classify_analysis_output(
        "  error: b\r\nerror: a\n\nerror: b\n3 warnings found\n",
        "warning: z\nwarning: z",
    );
    assert_eq!(errors, vec!["error: a", "error: b"]);
    assert_eq!(warnings, vec!["3 warnings found", "warning: z"]);
}

#[test]
fn counts_near_an_issue_are_read() {
    assert!(line_reports_issue("Found 3 errors", "error"));
    assert!(line_reports_issue("errors found during 2 replays", "error") == false);
    assert!(line_reports_issue("errors total 12 end", "error"));
    assert!(!line_reports_issue("errors 12", "error"));
    assert!(line_reports_issue("7 of the errors", "error"));
    assert!(!line_reports_issue("7 of all the errors", "error"));
    assert!(!line_reports_issue("errors: 0", "error"));
    assert!(line_reports_issue("[Warning] slow", "warning"));
    assert!(!line_reports_issue("ErrorScale 3", "error"));
    assert!(line_reports_issue("ERREUR; Error: É", "error"));
}

#[test]
fn test_artifact_status_accepts_success_and_pix_minus_one_only() {
    assert!(validate_artifact_command_output(true, Some(0), "", "", "test").is_ok());
    assert!(validate_artifact_command_output(false, Some(-1), "", "", "test").is_ok());
    assert!(validate_artifact_command_output(false, Some(1), "", "", "test").is_err());
    assert!(validate_artifact_command_output(
        true,
        Some(0),
        PROCESS_OUTPUT_TRUNCATION_MARKER,
        "",
        "test"
    )
    .is_err());
    assert!(!is_counter_output_line(PROCESS_OUTPUT_TRUNCATION_MARKER));
    let pipe_marker = "[pix-mcp: stdout pipe remained open after pixtool exited; output discarded]";
    assert!(reject_incomplete_process_output(pipe_marker, "", "test").is_err());
    assert!(!is_counter_output_line(pipe_marker));
    assert!(validate_artifact_command_output(
        true,
        Some(0),
        "No errors; ERROR: partial export",
        "",
        "test"
    )
    .is_err());
}

#[test]
fn artifact_problems_have_their_messages() {
    let incomplete = accept_command(
        &output("", PROCESS_OUTPUT_TRUNCATION_MARKER, true, Some(0)),
        "export",
    )
    .expect_err("incomplete");
    assert_eq!(
        incomplete.to_text(),
        "pixtool export output was truncated or could not be drained within the server's 1048576 byte per-stream limit; refusing to report an incomplete result"
    );
    let developer = accept_command(&output("developer mode", "", true, Some(0)), "export")
        .expect_err("developer mode");
    assert!(developer.to_text().contains("Settings → For developers"));
    let reported = accept_command(&output("fine", "error: bad", true, Some(0)), "export")
        .expect_err("reported");
    assert_eq!(
        reported.to_text(),
        "pixtool export reported a failure (error: bad).\nstdout:\nfine\nstderr:\nerror: bad"
    );
    let status = accept_command(&output("fine", "", false, Some(3)), "export")
        .expect_err("status");
    assert_eq!(
        status.to_text(),
        "pixtool export failed with exit code Some(3).\nfine"
    );
    let killed = accept_command(&output("", "odd", false, None), "export").expect_err("status");
    assert_eq!(
        killed.to_text(),
        "pixtool export failed with exit code None.\nstderr:\nodd"
    );
    assert!(accept_command(&output("fine", "", false, Some(-1)), "export").is_ok());
    let problem = ArtifactProblem::Status { exit_code: Some(-7) };
    assert_eq!(
        problem.message("x", "", ""),
        "pixtool x failed with exit code Some(-7).\n"
    );
    assert!(accepted_status(false, Some(-1)) && !accepted_status(false, None));
}

#[test]
fn test_failure_line_detection_distinguishes_counter_names_from_errors() {
    assert!(line_indicates_command_failure(
        "ERROR: capture could not be opened"
    ));
    assert!(line_indicates_command_failure("Playback failed"));
    assert!(!line_indicates_command_failure("D3D12 GPU Time"));
}

#[test]
fn diagnostic_lines_are_bounded() {
    let lines = vec!["short".to_string(), "é".repeat(20_000), "x".repeat(10)];
    let (total, kept, truncated) = bounded_diagnostic_lines(&lines);
    assert_eq!(total, 3);
    assert_eq!(kept.len(), 3);
    assert!(truncated);
    assert!(kept[1].ends_with("…[truncated]"));
    assert!(kept[1].len() <= 16 * 1024);

    let many: Vec<String> = (0..40).map(|_| "y".repeat(16_000)).collect();
    let (total, kept, truncated) = bounded_diagnostic_lines(&many);
    assert_eq!(total, 40);
    assert_eq!(kept.len(), 12);
    assert!(truncated);
}

#[test]
fn capture_files_are_accepted_by_size_and_extension() {
    assert!(require_capture_path("a.wpix").is_ok());
    assert_eq!(
        require_capture_path(" \t").expect_err("blank").to_text(),
        "capture_path must not be empty"
    );
    assert!(accept_capture_file("a.wpix", "a.wpix", 1).is_ok());
    assert_eq!(
        accept_capture_file("a.wpix", "a.wpix", 0).expect_err("empty").to_text(),
        "Capture file is empty: a.wpix"
    );
    assert_eq!(
        accept_capture_file("a.png", "a.png", 5).expect_err("png").to_text(),
        "Capture path must reference a .wpix file: a.png"
    );
    assert_eq!(
        capture_not_found("x.wpix").to_text(),
        "Capture file not found: x.wpix. Provide a valid .wpix path; use pix_list_captures to find captures."
    );
}

#[test]
fn counters_are_listed_filtered_and_limited() {
    let stdout = "Launching replay\nAvailable counters:\n  GPU Busy \nD3D Draws\nGPU Time\n";
    let listing = output(stdout, "", true, Some(0));
    let all = counters_report("a.wpix".to_string(), &None, None, &listing).expect("counters");
    assert_eq!(all.counters, vec!["GPU Busy", "D3D Draws", "GPU Time"]);
    assert_eq!(all.total_count, 3);
    assert!(!all.truncated);

    let filter = Some("gpu".to_string());
    let some = counters_report("a.wpix".to_string(), &filter, Some(1), &listing)
        .expect("filtered counters");
    assert_eq!(some.counters, vec!["GPU Busy"]);
    assert_eq!(some.total_count, 3);
    assert_eq!(some.returned, 1);
    assert!(some.truncated);

    assert_eq!(
        some.to_json(),
        "{\"success\":true,\"capture_path\":\"a.wpix\",\"total_count\":3,\"returned\":1,\"truncated\":true,\"counters\":[\"GPU Busy\"]}"
    );
    assert!(accept_counters_report(all).is_ok());
    let long = CountersReport {
        capture_path: "a".repeat(1024 * 1024),
        ..some
    };
    assert_eq!(
        accept_counters_report(long).expect_err("too large").to_text(),
        "Counter report exceeded its 1048576 byte inline budget; use a narrower filter"
    );
    assert!(check_counter_limit(Some(0)).is_err());
    assert!(check_counter_limit(None).is_ok());
}

#[test]
fn counter_listings_that_fail_are_refused() {
    let nothing = counters_report(
        "a.wpix".to_string(),
        &None,
        None,
        &output("counters:\n", "", true, Some(0)),
    )
    .expect_err("no counters");
    assert_eq!(
        nothing.to_text(),
        "pixtool returned no counters (status: exit status).\nstdout: counters:\n\nstderr: "
    );
    let failed = counters_report(
        "a.wpix".to_string(),
        &None,
        None,
        &output("GPU Busy", "", false, Some(2)),
    )
    .expect_err("status");
    assert!(failed
        .to_text()
        .starts_with("pixtool failed to list counters with status exit status.\nstdout: GPU Busy"));
    let reported = counters_report(
        "a.wpix".to_string(),
        &None,
        None,
        &output("error: no replay", "", true, Some(0)),
    )
    .expect_err("reported");
    assert!(reported.to_text().starts_with("pixtool failed to list counters.\n"));
}

#[test]
fn playback_reports_count_every_issue() {
    let raw = output("error: a\nwarning: b", "", false, Some(-1));
    assert!(check_playback(&raw).is_ok());
    assert!(check_playback(&output("", "", false, Some(5))).is_err());
    let (errors, warnings) = classify_analysis_output(&raw.stdout, &raw.stderr);
    let report = run_analysis_report(
        "a.wpix".to_string(),
        raw.exit_code,
        &errors,
        &warnings,
        &raw.public_stdout,
        &raw.public_stderr,
    );
    assert!(!report.success);
    assert_eq!(report.analysis.error_count, 1);
    assert_eq!(report.analysis.warning_count, 1);
    assert_eq!(report.process_exit_code, Some(-1));
    assert_eq!(report.full_output, "error: a\nwarning: b");
    assert!(report.note.ends_with("printed by the command itself"));

    assert!(report.to_json().contains("\"process_exit_code\":-1,\"note\":\"pixtool run-debug-layer"));
    let report = fit_run_analysis_report(report).expect("small enough");
    assert_eq!(report.full_output, "error: a\nwarning: b");

    let long = RunAnalysisReport {
        full_output: "\u{1}".repeat(200_000),
        ..report
    };
    let trimmed = fit_run_analysis_report(long).expect("without its output");
    assert_eq!(trimmed.full_output, "");
    assert!(trimmed.note.ends_with("full process output was omitted to stay within the inline response budget"));
    assert_eq!(trimmed.analysis.errors, vec!["error: a"]);
    let longer = RunAnalysisReport {
        capture_path: "\u{1}".repeat(200_000),
        ..trimmed
    };
    assert_eq!(
        fit_run_analysis_report(longer).expect_err("too large").to_text(),
        "Debug-layer report exceeded its 1048576 byte inline budget"
    );
}

#[test]
fn analysis_reports_are_bounded() {
    let events = EventsPreview {
        total_events: 0,
        header: "Name".to_string(),
        preview: Vec::new(),
        preview_truncated: false,
    };
    let report = analyze_report(
        "a.wpix".to_string(),
        3,
        "0.00".to_string(),
        events,
        &"z".repeat(40_000),
    );
    assert_eq!(report.pixtool_output.len(), 32 * 1024);
    let report = accept_analyze_report(report).expect("small enough");
    assert!(report.to_json().starts_with(
        "{\"success\":true,\"capture_path\":\"a.wpix\",\"file_size_bytes\":3,\"file_size_mb\":\"0.00\",\"events\":{\"header\":\"Name\",\"preview\":[],\"preview_truncated\":false,\"total_events\":0},\"pixtool_output\":\"zzz"
    ));
    let long = AnalyzeReport {
        capture_path: "a".repeat(1024 * 1024),
        ..report
    };
    assert_eq!(
        accept_analyze_report(long).expect_err("too large").to_text(),
        "Analysis report exceeded its 1048576 byte inline budget; use pix_get_event_list with output_path for the full CSV"
    );
}

#[test]
fn unusable_artifacts_show_both_streams() {
    let error = unusable_artifact(
        "pixtool did not produce a valid event list",
        &Failure::new("Empty CSV file".to_string()),
        &output("o", "e", true, Some(0)),
    );
    assert_eq!(
        error.to_text(),
        "pixtool did not produce a valid event list: Empty CSV file\nstdout: o\nstderr: e"
    );
}
