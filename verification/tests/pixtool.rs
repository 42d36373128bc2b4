use pix_mcp::diagnostics::{
    check_developer_mode, discarded_stream_note, reject_incomplete_process_output, BoundedOutput,
    MAX_PROCESS_OUTPUT_BYTES,
};
use pix_mcp::pixtool::{
    accept_capture_output, captured, check_capture_output, command_failed,
    command_line_unsupported, gpu_capture_failed, gpu_capture_launch_failed, launched,
    launched_with_capture, plain_value_option, push_value_option, quoted_value_option,
    require_wpix_input, timing_timeout_millis, validate_command_line_args, validate_duration,
    validate_frames, validate_process_id, validate_raw_value, verify_new_capture_output, Argument,
    CaptureInfo, DirectoryEntry, FileTime, OutputProbe, PixTool, RunProblem, SavedProbe,
};
use pix_mcp::plans::LaunchPlan;
use pix_mcp::versions::{natural_compare, Candidate, InstalledVersion};
use std::cmp::Ordering;

const PROCESS_OUTPUT_TRUNCATION_MARKER: &str = "[pix-mcp: process output truncated]";

fn words(list: &[Argument]) -> Vec<String> {
    list.iter()
        .map(|argument| match argument {
            Argument::Plain(text) => text.clone(),
            Argument::Valued { option, value } => quoted_value_option(option, value),
        })
        .collect()
}

#[test]
fn test_quoted_value_option_wraps_value_in_quotes() {
    assert_eq!(
        quoted_value_option(
            "--command-line",
            "+runworld worlds\\RetailSinglePlayer\\c01"
        ),
        "--command-line=\"+runworld worlds\\RetailSinglePlayer\\c01\""
    );
    assert_eq!(
        quoted_value_option("--working-directory", "C:\\Program Files\\My Game"),
        "--working-directory=\"C:\\Program Files\\My Game\""
    );
    assert_eq!(
        quoted_value_option("--working-directory", "C:\\"),
        "--working-directory=\"C:\\\\\""
    );
}

#[test]
fn value_options_without_quotes_are_plain() {
    assert_eq!(plain_value_option("--counters", "D3D*"), "--counters=D3D*");
}

#[test]
fn test_command_line_unsupported_detects_spaces_and_leading_dash_plus() {
    assert!(command_line_unsupported("foo bar"));
    assert!(command_line_unsupported("-windowed"));
    assert!(command_line_unsupported("+runworld"));
    assert!(!command_line_unsupported("foobar"));
    assert!(!command_line_unsupported("level1"));
}

#[test]
fn test_command_line_validation_rejects_unsupported_or_unsafe_values() {
    assert_eq!(
        validate_command_line_args(&[]).expect("empty is valid"),
        None
    );
    assert_eq!(
        validate_command_line_args(&["level1"]).expect("single token is valid"),
        Some("level1".to_string())
    );
    assert!(validate_command_line_args(&["foo", "bar"]).is_err());
    assert!(validate_command_line_args(&["-windowed"]).is_err());
    assert!(validate_command_line_args(&["bad\"arg"]).is_err());
    assert!(validate_command_line_args(&["bad\narg"]).is_err());
}

#[test]
fn command_line_refusals_say_what_was_refused() {
    let empty = validate_command_line_args(&["level1", ""]).expect_err("empty argument");
    assert_eq!(empty.to_text(), "Application arguments must not be empty");
    let control = validate_command_line_args(&["a\u{7f}"]).expect_err("control character");
    assert_eq!(
        control.to_text(),
        "Application argument contains a quote or control character, which cannot be passed safely to pixtool"
    );
    let spaces = validate_command_line_args(&["foo", "bar"]).expect_err("two arguments");
    assert_eq!(
        spaces.to_text(),
        "pixtool 2603.25 cannot safely pass these application arguments via --command-line: \"foo bar\". Values containing spaces and values starting with '-' or '+' are rejected. Use the application's config/autoexec file or an environment variable instead."
    );
    let tab_like = validate_command_line_args(&["-é"]).expect_err("leading dash");
    assert!(tab_like.to_text().contains("\"-é\""));
}

#[test]
fn raw_values_and_options_are_checked() {
    assert!(validate_raw_value("Marker", "Shadow pass").is_ok());
    let error = validate_raw_value("Marker", "a\"b").expect_err("quote");
    assert!(error.to_text().starts_with("Marker contains a quote"));

    let mut list: Vec<Argument> = Vec::new();
    push_value_option(&mut list, "--marker", "Shadow pass").expect("safe value");
    assert!(push_value_option(&mut list, "--marker", "a\nb").is_err());
    assert_eq!(words(&list), vec!["--marker=\"Shadow pass\"".to_string()]);
}

#[test]
fn test_natural_compare_orders_numeric_pix_versions() {
    assert_eq!(natural_compare("2603.25", "2603.9"), Ordering::Greater);
    assert_eq!(natural_compare("2509.1", "2603.1"), Ordering::Less);
}

#[test]
fn natural_compare_handles_zeros_case_and_prefixes() {
    assert_eq!(natural_compare("v007", "v7"), Ordering::Greater);
    assert_eq!(natural_compare("v007", "v8"), Ordering::Less);
    assert_eq!(natural_compare("ABC", "abc"), Ordering::Equal);
    assert_eq!(natural_compare("abc", "abcd"), Ordering::Less);
    assert_eq!(natural_compare("a1", "ab"), Ordering::Less);
    assert_eq!(
        natural_compare("99999999999999999999999", "100000000000000000000000"),
        Ordering::Less
    );
    assert_eq!(natural_compare("", ""), Ordering::Equal);
}

fn version(name: &str, tool_is_file: bool) -> InstalledVersion {
    InstalledVersion {
        name: name.to_string(),
        tool_path: format!("pix/{name}/pixtool.exe"),
        tool_is_file,
    }
}

#[test]
fn newest_installed_version_with_a_tool_is_used() {
    let versions = vec![
        version("2509.1", true),
        version("2603.9", true),
        version("2603.25", false),
    ];
    assert_eq!(
        PixTool::find(&None, &None, versions).expect("an installed tool"),
        "pix/2603.9/pixtool.exe"
    );
    let configured = Some(Candidate {
        path: "custom/pixtool.exe".to_string(),
        is_file: true,
    });
    let known = Some(Candidate {
        path: "known/pixtool.exe".to_string(),
        is_file: true,
    });
    assert_eq!(
        PixTool::find(&None, &configured, vec![version("1", true)]).expect("configured"),
        "custom/pixtool.exe"
    );
    assert_eq!(
        PixTool::find(&known, &configured, Vec::new()).expect("known"),
        "known/pixtool.exe"
    );
    let gone = Some(Candidate {
        path: "gone/pixtool.exe".to_string(),
        is_file: false,
    });
    let error = PixTool::find(&gone, &gone, vec![version("1", false)]).expect_err("nothing");
    assert!(error.to_text().starts_with("Could not find pixtool.exe."));
}

#[test]
fn test_check_developer_mode_maps_error() {
    assert!(check_developer_mode("ok", "").is_ok());
    assert!(check_developer_mode("", "E_PIX_FEATURE_REQUIRES_DEVELOPER_MODE").is_err());
    assert!(check_developer_mode("Please enable Developer Mode", "").is_err());
}

#[test]
fn bounded_output_drains_but_does_not_retain_unbounded_data() {
    let payload = vec![b'x'; MAX_PROCESS_OUTPUT_BYTES + 4096];
    let mut output = BoundedOutput::new();
    for chunk in payload.chunks(8192) {
        output.append(chunk);
    }
    let output = output.finish();
    assert!(output.starts_with(&vec![b'x'; 1024]));
    assert_eq!(
        output.len(),
        MAX_PROCESS_OUTPUT_BYTES + PROCESS_OUTPUT_TRUNCATION_MARKER.len() + 2
    );
    assert!(output.ends_with(format!("{PROCESS_OUTPUT_TRUNCATION_MARKER}\n").as_bytes()));

    let text = String::from_utf8(output).expect("ASCII output");
    assert!(reject_incomplete_process_output(&text, "", "test").is_err());
}

#[test]
fn short_output_is_kept_as_it_is() {
    let mut output = BoundedOutput::new();
    output.append(b"one ");
    output.append(b"two");
    assert_eq!(output.finish(), b"one two".to_vec());

    let mut full = BoundedOutput::new();
    full.append(&vec![b'y'; MAX_PROCESS_OUTPUT_BYTES]);
    assert_eq!(full.finish().len(), MAX_PROCESS_OUTPUT_BYTES);
    assert_eq!(
        discarded_stream_note("stdout"),
        "[pix-mcp: stdout pipe remained open after pixtool exited; output discarded]\n"
    );
}

#[test]
fn bounds_of_requests_are_checked() {
    assert!(validate_process_id(0).is_err());
    assert!(validate_process_id(1).is_ok());
    assert_eq!(validate_frames(None).expect("default"), 1);
    assert_eq!(validate_frames(Some(120)).expect("largest"), 120);
    assert!(validate_frames(Some(0)).is_err());
    assert_eq!(
        validate_frames(Some(121)).expect_err("too many").to_text(),
        "frames must be between 1 and 120"
    );
    assert_eq!(validate_duration(None).expect("default"), 100);
    assert_eq!(validate_duration(Some(600_000)).expect("largest"), 600_000);
    assert!(validate_duration(Some(0)).is_err());
    assert!(validate_duration(Some(600_001)).is_err());
    assert_eq!(timing_timeout_millis(100), 30_100);
}

#[test]
fn launch_commands_pass_the_accepted_arguments() {
    let plan = LaunchPlan::new(
        "game.exe".to_string(),
        &["level1"],
        Some("C:\\My Game\\".to_string()),
    )
    .expect("a launch that can be passed on");
    assert_eq!(
        words(&plan.launch()),
        vec![
            "launch",
            "game.exe",
            "--command-line=\"level1\"",
            "--working-directory=\"C:\\My Game\\\\\"",
        ]
    );
    assert_eq!(
        words(&plan.launch_and_capture(&Some("out.wpix".to_string()))),
        vec![
            "launch",
            "game.exe",
            "--captureFromStart",
            "--command-line=\"level1\"",
            "--working-directory=\"C:\\My Game\\\\\"",
            "take-capture",
            "--frames=1",
            "save-capture",
            "out.wpix",
        ]
    );
    let plain = LaunchPlan::new("game.exe".to_string(), &[], None).expect("no arguments");
    assert_eq!(
        words(&plain.launch_and_capture(&None)),
        vec![
            "launch",
            "game.exe",
            "--captureFromStart",
            "take-capture",
            "--frames=1",
            "--open",
        ]
    );
    assert_eq!(
        words(&plain.gpu_capture(Some(3), "out.wpix").expect("a command")),
        vec![
            "launch",
            "game.exe",
            "take-capture",
            "--frames=3",
            "save-capture",
            "out.wpix",
        ]
    );
    assert_eq!(
        words(&plain.gpu_capture(None, "out.wpix").expect("a command"))[3],
        "--frames=1"
    );
    assert_eq!(
        plain.gpu_capture(Some(121), "out.wpix").expect_err("too many").to_text(),
        "frames must be between 1 and 120"
    );
    assert!(LaunchPlan::new("game.exe".to_string(), &["-windowed"], None).is_err());
    assert!(LaunchPlan::new("game.exe".to_string(), &[], Some("a\"b".to_string())).is_err());
}

#[test]
fn capture_commands_name_the_process() {
    assert_eq!(
        words(&PixTool::gpu_capture_process(4242, "out.wpix")),
        vec!["attach", "4242", "take-capture", "save-capture", "out.wpix"]
    );
    assert_eq!(
        words(&PixTool::timing_capture_process(7, "t.wpix", 250)),
        vec![
            "attach",
            "7",
            "take-new-timing-capture",
            "t.wpix",
            "--duration=250",
        ]
    );
    assert_eq!(
        words(&PixTool::run_on_capture("a.wpix", "list-counters")),
        vec!["open-capture", "a.wpix", "list-counters"]
    );
    let list = PixTool::save_event_list("a.wpix", "e.csv", &Some("D3D*".to_string()))
        .expect("safe pattern");
    assert_eq!(
        words(&list),
        vec![
            "open-capture",
            "a.wpix",
            "save-event-list",
            "e.csv",
            "--counters=\"D3D*\"",
        ]
    );
    assert!(PixTool::save_event_list("a.wpix", "e.csv", &Some("\"".to_string())).is_err());
}

#[test]
fn answers_name_what_was_done() {
    let launch = launched("game.exe", 12);
    assert_eq!(launch.process_id, 12);
    assert!(launch.message.starts_with("Launched game.exe under pixtool (pixtool PID: 12 — "));
    let saved = launched_with_capture("game.exe", 12, &Some("out.wpix".to_string()));
    assert_eq!(
        saved.message,
        "Captured game.exe from launch and saved a non-empty capture to out.wpix (pixtool launcher PID was 12)"
    );
    let opened = launched_with_capture("game.exe", 12, &None);
    assert_eq!(
        opened.message,
        "Started game.exe under PIX and requested a one-frame capture to open in the PIX GUI (pixtool launcher PID: 12)"
    );
    let capture = captured("GPU capture", "out.wpix".to_string(), "log".to_string());
    assert_eq!(capture.message, "GPU capture saved to out.wpix");
    assert_eq!(capture.stdout, "log");
    assert_eq!(
        command_failed("pixtool timing-capture", "out", "err").to_text(),
        "pixtool timing-capture failed:\nstderr: err\nstdout: out"
    );
}

#[test]
fn capture_failures_are_explained() {
    let missing = gpu_capture_failed(5, "PIXTOOL17 error", "", "shown out", "shown err");
    assert!(missing.to_text().starts_with("Cannot GPU-capture PID 5: "));
    assert!(missing.to_text().ends_with("stdout: shown out\nstderr: shown err"));
    let other = gpu_capture_failed(5, "boom", "", "shown out", "shown err");
    assert_eq!(
        other.to_text(),
        "pixtool capture failed:\nstderr: shown err\nstdout: shown out"
    );
    let developer = gpu_capture_launch_failed("requires_developer_mode", "", "", "");
    assert!(developer.to_text().contains("Developer Mode"));
    let failed = gpu_capture_launch_failed("boom", "", "o", "e");
    assert_eq!(failed.to_text(), "pixtool capture failed:\nstderr: e\nstdout: o");
}

#[test]
fn run_problems_name_the_operation() {
    let operation = "pixtool GPU capture";
    assert_eq!(
        RunProblem::QueueTimeout { seconds: 30 }.message(operation),
        "pixtool GPU capture waited 30 seconds for a pixtool execution slot"
    );
    assert_eq!(
        RunProblem::LimiterClosed.message(operation),
        "pixtool concurrency limiter is closed"
    );
    assert_eq!(
        RunProblem::TooManyLaunches.message(operation),
        "Too many background PIX launches are already running (maximum 4)"
    );
    assert_eq!(
        RunProblem::NotStarted { error: "no".to_string() }.message(operation),
        "Failed to start pixtool GPU capture: no"
    );
    assert_eq!(
        RunProblem::NoProcessId.message(operation),
        "pixtool GPU capture started without a process ID"
    );
    assert_eq!(
        RunProblem::NoStream { stream: "stdout".to_string() }.message(operation),
        "pixtool GPU capture stdout pipe was not available"
    );
    assert_eq!(
        RunProblem::StreamTaskFailed { stream: "stderr".to_string(), error: "x".to_string() }
            .message(operation),
        "stderr reader task failed: x"
    );
    assert_eq!(
        RunProblem::StreamUnreadable { stream: "stderr".to_string(), error: "x".to_string() }
            .message(operation),
        "Failed to read pixtool stderr: x"
    );
    assert_eq!(
        RunProblem::WaitFailed { error: "x".to_string() }.message(operation),
        "Failed while waiting for pixtool GPU capture: x"
    );
    assert_eq!(
        RunProblem::TimedOut { seconds: 600 }.message(operation),
        "pixtool GPU capture timed out after 600 seconds and was terminated"
    );
    assert_eq!(
        RunProblem::StartFailed { error: "x".to_string() }.message(operation),
        "Failed while starting pixtool GPU capture: x"
    );
    assert_eq!(
        RunProblem::EndedAtOnce { status: "exit status: 1".to_string() }.message(operation),
        "pixtool GPU capture exited immediately with exit status: 1"
    );
}

#[test]
fn capture_paths_are_checked_before_and_after() {
    assert!(require_wpix_input("a.WPIX", false).is_ok());
    assert_eq!(
        require_wpix_input("a.png", false).expect_err("no capture").to_text(),
        "Capture path must have a .wpix extension: a.png"
    );
    assert!(require_wpix_input("a.png", true)
        .expect_err("no capture")
        .to_text()
        .contains("resolves to"));

    assert!(check_capture_output("new.wpix").is_ok());
    assert_eq!(
        check_capture_output("  ").expect_err("blank").to_text(),
        "Capture output path must not be empty"
    );
    assert_eq!(
        check_capture_output("..").expect_err("no file").to_text(),
        "Capture output path must not be empty"
    );
    assert_eq!(
        check_capture_output("new.png").expect_err("extension").to_text(),
        "Capture output path must have a .wpix extension: new.png"
    );

    let free = OutputProbe::Free { parent: "out".to_string(), parent_is_directory: true };
    assert!(accept_capture_output("new.wpix", &free).is_ok());
    let orphan = OutputProbe::Free { parent: "out".to_string(), parent_is_directory: false };
    assert_eq!(
        accept_capture_output("new.wpix", &orphan).expect_err("no parent").to_text(),
        "Capture output parent does not exist or is not a directory: out"
    );
    assert_eq!(
        accept_capture_output("new.wpix", &OutputProbe::Taken).expect_err("taken").to_text(),
        "Capture output already exists; choose a new path: new.wpix"
    );
    let unknown = OutputProbe::Unknown { error: "denied".to_string() };
    assert_eq!(
        accept_capture_output("new.wpix", &unknown).expect_err("unknown").to_text(),
        "Cannot inspect capture output new.wpix: denied"
    );

    let found = SavedProbe::Found { is_file: true, size_bytes: 1 };
    assert!(verify_new_capture_output("new.wpix", &found).is_ok());
    let empty = SavedProbe::Found { is_file: true, size_bytes: 0 };
    assert_eq!(
        verify_new_capture_output("new.wpix", &empty).expect_err("empty").to_text(),
        "pixtool did not create a non-empty capture file at new.wpix"
    );
    let missing = SavedProbe::Missing { error: "gone".to_string() };
    assert_eq!(
        verify_new_capture_output("new.wpix", &missing).expect_err("missing").to_text(),
        "pixtool reported success but did not create new.wpix: gone"
    );
}

fn entry(name: &str, seconds: Option<i64>, is_file: bool) -> DirectoryEntry {
    DirectoryEntry {
        info: CaptureInfo {
            path: format!("dir/{name}"),
            name: name.to_string(),
            size_bytes: 10,
            modified: seconds.map(|seconds| FileTime { seconds, nanos: 0 }),
        },
        is_file,
    }
}

#[test]
fn captures_are_listed_newest_first() {
    let captures = PixTool::list_captures(vec![
        entry("old.wpix", Some(10), true),
        entry("undated.wpix", None, true),
        entry("B.wpix", Some(20), true),
        entry("a.WPIX", Some(20), true),
        entry("notes.txt", Some(30), true),
        entry("folder.wpix", Some(40), false),
        entry(".wpix", Some(50), true),
    ])
    .expect("a listing");
    let names: Vec<&str> = captures.iter().map(|capture| capture.name.as_str()).collect();
    assert_eq!(names, vec!["a.WPIX", "B.wpix", "old.wpix", "undated.wpix"]);

    let crowded: Vec<DirectoryEntry> =
        (0..20_001).map(|index| entry(&format!("{index}.txt"), None, true)).collect();
    assert_eq!(
        PixTool::list_captures(crowded).expect_err("too many entries").to_text(),
        "Capture directory contains more than 20000 entries; choose a narrower directory"
    );
}

#[test]
fn captures_are_written_as_json() {
    let capture = CaptureInfo {
        path: "C:\\a.wpix".to_string(),
        name: "a.wpix".to_string(),
        size_bytes: 3,
        modified: Some(FileTime { seconds: -5, nanos: 1 }),
    };
    let value: serde_json::Value =
        serde_json::from_str(&capture.to_json()).expect("a JSON object");
    assert_eq!(value["path"], serde_json::Value::from("C:\\a.wpix"));
    assert_eq!(value["name"], serde_json::Value::from("a.wpix"));
    assert_eq!(value["size_bytes"], serde_json::Value::from(3));
    assert_eq!(value["modified"], serde_json::Value::from(0));
}
