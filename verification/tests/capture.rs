use pix_mcp::capture::{
    capture_list_report, capture_report, list_captures_directory, list_captures_limit,
    no_capture_to_open, normalize_wpix_output, opened_report, require_output_path,
};
use pix_mcp::frame::FrameInsights;
use pix_mcp::launch::{launch_capture_file, launch_report};
use pix_mcp::pixtool::{CaptureInfo, CaptureResult, DirectoryEntry, FileTime, LaunchResult, PixTool};
use pix_mcp::workflow::{capture_and_analyze_report, derived_screenshot};

#[test]
fn wpix_output_normalization_rejects_directories_and_conflicting_extensions() {
    assert!(normalize_wpix_output("captures", "output_path", true).is_err());
    assert!(normalize_wpix_output("capture.png", "output_path", false).is_err());
    assert_eq!(
        normalize_wpix_output("capture", "output_path", false).expect("append extension"),
        "capture.wpix"
    );
    assert_eq!(
        normalize_wpix_output("capture.WPIX", "output_path", false).expect("accept extension"),
        "capture.WPIX"
    );
}

#[test]
fn output_paths_are_required_and_stable() {
    assert_eq!(
        require_output_path(&None, false).expect_err("missing").to_text(),
        "output_path is required: provide a path to save the .wpix capture"
    );
    assert_eq!(
        require_output_path(&Some(" ".to_string()), false).expect_err("blank").to_text(),
        "output_path must not be empty"
    );
    assert_eq!(
        require_output_path(&Some("a.png".to_string()), false).expect_err("png").to_text(),
        "output_path must end with .wpix: a.png"
    );
    assert_eq!(
        require_output_path(&Some("dir".to_string()), true).expect_err("directory").to_text(),
        "output_path must name a file, not a directory: dir"
    );
    let once = require_output_path(&Some("dir/frame".to_string()), false).expect("a path");
    assert_eq!(once, "dir/frame.wpix");
    assert_eq!(require_output_path(&Some(once.clone()), false).expect("same"), once);
    assert_eq!(
        require_output_path(&Some("C:\\caps\\frame".to_string()), false).expect("a path"),
        "C:\\caps\\frame.wpix"
    );
    assert_eq!(
        require_output_path(&Some("a.d/frame".to_string()), false).expect("a path"),
        "a.d/frame.wpix"
    );
    assert_eq!(launch_capture_file(&None, false).expect("none"), None);
    assert_eq!(
        launch_capture_file(&Some("x".to_string()), false).expect("a file").as_deref(),
        Some("x.wpix")
    );
    assert_eq!(
        launch_capture_file(&Some("".to_string()), false).expect_err("blank").to_text(),
        "capture_file must not be empty"
    );
}

fn entry(name: &str) -> DirectoryEntry {
    DirectoryEntry {
        info: CaptureInfo {
            path: format!("dir/{name}"),
            name: name.to_string(),
            size_bytes: 7,
            modified: Some(FileTime { seconds: 5, nanos: 0 }),
        },
        is_file: true,
    }
}

#[test]
fn capture_listing_is_paginated_and_reports_the_total() {
    let captures = PixTool::list_captures(vec![
        entry("one.wpix"),
        entry("two.wpix"),
        entry("three.wpix"),
        entry("ignored.txt"),
    ])
    .expect("list captures");
    let limit = list_captures_limit(Some(1)).expect("a limit");
    let report = capture_list_report("dir".to_string(), &captures, Some(1), limit);

    assert_eq!(report.total_count, 3);
    assert_eq!(report.offset, 1);
    assert_eq!(report.returned, 1);
    assert_eq!(report.count, 1);
    assert!(report.truncated);
    assert_eq!(report.next_offset, Some(2));
    assert_eq!(report.captures.len(), 1);
    assert_eq!(report.captures[0].name, "three.wpix");
    assert_eq!(report.captures[0].modified, Some(5));

    let beyond = capture_list_report("dir".to_string(), &captures, Some(9), limit);
    assert_eq!(beyond.offset, 3);
    assert_eq!(beyond.returned, 0);
    assert_eq!(beyond.next_offset, None);
}

#[test]
fn listings_are_bounded() {
    assert_eq!(list_captures_limit(None).expect("default"), 100);
    assert_eq!(list_captures_limit(Some(500)).expect("largest"), 500);
    assert_eq!(
        list_captures_limit(Some(501)).expect_err("too many").to_text(),
        "limit must be between 1 and 500"
    );
    assert!(list_captures_limit(Some(0)).is_err());
    assert!(list_captures_directory(&Some("\t".to_string())).is_err());
    assert_eq!(
        list_captures_directory(&Some("d".to_string())).expect("a directory").as_deref(),
        Some("d")
    );
    assert_eq!(list_captures_directory(&None).expect("the default"), None);
}

#[test]
fn reports_repeat_the_result() {
    let result = || CaptureResult {
        output_path: "o.wpix".to_string(),
        message: "saved".to_string(),
        stdout: "log".to_string(),
    };
    let report = capture_report(result(), false);
    assert_eq!(report.pixtool_output, "log");
    assert_eq!(report.note, None);
    let timing = capture_report(result(), true);
    assert_eq!(
        timing.note.as_deref(),
        Some("Timing captures require administrator privileges")
    );
    assert_eq!(
        no_capture_to_open("x.wpix").to_text(),
        "Capture file not found: x.wpix. Use pix_list_captures to find captures."
    );
    assert_eq!(opened_report("x.wpix").message, "Opened capture in PIX: x.wpix");
    let launch = launch_report(LaunchResult {
        process_id: 3,
        message: "up".to_string(),
    });
    assert!(launch.success && launch.process_id == 3);
}

#[test]
fn derived_screenshots_never_replace_a_file() {
    let request = derived_screenshot(None, "frame.wpix").expect("a screenshot");
    assert_eq!(request.output_path, "frame.png");
    assert!(!request.replace_existing && !request.embed_image);
    assert!(derived_screenshot(Some(false), "frame.wpix").is_none());
    let nested = derived_screenshot(Some(true), "dir/my.frame.wpix").expect("a screenshot");
    assert_eq!(nested.output_path, "dir/my.frame.png");

    let insights = FrameInsights {
        success: true,
        capture_path: "frame.wpix".to_string(),
        total_events: 0,
        draw_calls: 0,
        dispatches: 0,
        resource_barriers: 0,
        render_target_changes: 0,
        copies: 0,
        event_columns: Vec::new(),
        top_events: Vec::new(),
        notes: Vec::new(),
    };
    let report = capture_and_analyze_report(
        "frame.wpix".to_string(),
        "saved".to_string(),
        insights,
        Some("frame.png".to_string()),
    );
    assert_eq!(
        report.next_steps[0],
        "Open in PIX GUI: pix_open_capture { capture_path: \"frame.wpix\" }"
    );
    assert_eq!(report.next_steps.len(), 3);
}
