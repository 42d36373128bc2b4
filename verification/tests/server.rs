use pix_mcp::resources::ResourceReadError;
use pix_mcp::server::{
    map_prompt_error, map_resource_error, output_path_elicitation, path_from_reply, permit_refused,
    preflight_output_path, progress_message, reject_cursor, resolve_output_path, resource_cursor,
    resource_cursor_offset, resource_page, ArgumentValue, ElicitationReply, ErrorKind,
    OperationStage, OutputPathStep, ProgressGate, ToolPermitError,
    PROGRESS_NOTIFICATION_INTERVAL_NANOS,
};
use pix_mcp::status::{
    help_has_command, infer_installation_version, inspect_pixstorage, parse_capabilities,
    probe_pixtool, status_report, unavailable_pixstorage, version_of_directory, PixtoolProbe,
};

const RESOURCE_CURSOR_PREFIX: &str = "pix-captures-v2:";

#[test]
fn progress_gate_is_monotone_and_rate_limited() {
    let start = 1_000u64;
    let interval = PROGRESS_NOTIFICATION_INTERVAL_NANOS;
    let mut gate = ProgressGate::new();

    assert!(gate.accept(0.0f64.to_bits(), start, true));
    assert!(!gate.accept(0.0f64.to_bits(), start, true));
    assert!(!gate.accept(1.0f64.to_bits(), start + interval / 2, false));
    assert!(gate.accept(2.0f64.to_bits(), start + interval, false));
    assert!(!gate.accept(1.5f64.to_bits(), start + interval * 2, true));
    assert!(gate.accept(3.0f64.to_bits(), start + interval, true));
}

#[test]
fn progress_must_be_finite_and_start_above_minus_one() {
    let mut gate = ProgressGate::new();
    assert!(!gate.accept(f64::NAN.to_bits(), 0, true));
    assert!(!gate.accept(f64::INFINITY.to_bits(), 0, true));
    assert!(!gate.accept((-1.0f64).to_bits(), 0, true));
    assert!(gate.accept((-0.5f64).to_bits(), 0, true));
    assert!(gate.accept((-0.0f64).to_bits(), 0, true));
    assert!(!gate.accept(0.0f64.to_bits(), 0, true));
    assert!(!gate.accept(1.0f64.to_bits(), 0, false));
    assert_eq!(progress_message("Work", OperationStage::Started), "Work started");
    assert_eq!(
        progress_message("Work", OperationStage::Running),
        "Work is still running"
    );
    assert_eq!(progress_message("Work", OperationStage::Finished), "Work finished");
}

#[test]
fn resource_cursors_are_opaque_and_strictly_validated() {
    let generation = 0x1234;
    let total = 250;
    assert_eq!(
        resource_cursor_offset(None, generation, total).unwrap(),
        0
    );

    let second_page = format!("{RESOURCE_CURSOR_PREFIX}{generation:016x}:100");
    assert_eq!(
        resource_cursor_offset(Some(&second_page), generation, total).unwrap(),
        100
    );

    assert!(resource_cursor_offset(Some("100"), generation, total).is_err());
    assert!(reject_cursor(Some("100"), "tools/list").is_err());

    let stale = format!("{RESOURCE_CURSOR_PREFIX}0000000000009999:100");
    assert!(resource_cursor_offset(Some(&stale), generation, total).is_err());

    let fabricated = format!("{RESOURCE_CURSOR_PREFIX}{generation:016x}:1");
    assert!(resource_cursor_offset(Some(&fabricated), generation, total).is_err());
}

#[test]
fn cursors_are_refused_with_a_reason() {
    let refused = |cursor: &str| {
        resource_cursor_offset(Some(cursor), 0xAB, 250)
            .expect_err("a bad cursor")
            .to_text()
    };
    assert_eq!(refused("x"), "Unrecognized resources/list cursor");
    for malformed in ["", "ab", "ab:100:2", "zz:100", "ab:", ":100", "ab:-1"] {
        assert_eq!(
            refused(&format!("{RESOURCE_CURSOR_PREFIX}{malformed}")),
            "Malformed resources/list cursor"
        );
    }
    assert_eq!(
        refused("pix-captures-v2:ac:100"),
        "resources/list cursor expired because the capture catalog changed"
    );
    for offset in ["0", "50", "300"] {
        assert_eq!(
            refused(&format!("{RESOURCE_CURSOR_PREFIX}ab:{offset}")),
            "resources/list cursor was not emitted for this catalog"
        );
    }
    assert_eq!(
        resource_cursor_offset(Some("pix-captures-v2:+AB:+200"), 0xAB, 250).expect("lenient"),
        200
    );
    assert!(reject_cursor(None, "tools/list").is_ok());
    assert_eq!(
        reject_cursor(Some("c"), "tools/list").expect_err("a cursor").to_text(),
        "tools/list does not paginate; cursor must be omitted"
    );
}

#[test]
fn pages_lead_through_the_catalog() {
    let generation = u64::MAX - 7;
    let total = 250;
    let mut offset = resource_cursor_offset(None, generation, total).expect("first page");
    let mut ends: Vec<usize> = Vec::new();
    loop {
        let (end, next) = resource_page(generation, offset, total);
        ends.push(end);
        match next {
            Some(cursor) => {
                offset = resource_cursor_offset(Some(&cursor), generation, total).expect("next");
                assert_eq!(offset, end);
            }
            None => break,
        }
    }
    assert_eq!(ends, vec![100, 200, 250]);
    assert_eq!(
        resource_cursor(0x1234, 100),
        "pix-captures-v2:0000000000001234:100"
    );
}

#[test]
fn output_paths_are_asked_for_where_they_are_needed() {
    assert_eq!(
        output_path_elicitation("pix_timing_capture"),
        Some(("process_id", "Where should the timing capture (.wpix) be saved?"))
    );
    assert_eq!(
        output_path_elicitation("pix_get_screenshot"),
        Some(("capture_path", "Where should the screenshot PNG be saved?"))
    );
    assert_eq!(output_path_elicitation("pix_status"), None);

    let named = ArgumentValue::Text("a".to_string());
    assert!(preflight_output_path(&named, &ArgumentValue::Missing));
    assert!(preflight_output_path(&ArgumentValue::Number, &ArgumentValue::Null));
    assert!(!preflight_output_path(&named, &ArgumentValue::Text(String::new())));
    assert!(!preflight_output_path(
        &ArgumentValue::Text(" ".to_string()),
        &ArgumentValue::Missing
    ));
    assert!(!preflight_output_path(&ArgumentValue::Missing, &ArgumentValue::Missing));
    assert!(!preflight_output_path(&ArgumentValue::Other, &ArgumentValue::Missing));
}

#[test]
fn missing_output_paths_are_resolved() {
    assert!(matches!(resolve_output_path(Some("p".to_string()), false),
        OutputPathStep::Use(path) if path == "p"));
    assert!(matches!(resolve_output_path(Some(" ".to_string()), true),
        OutputPathStep::Refuse(e) if e.to_text() == "output_path must not be empty."));
    assert!(matches!(resolve_output_path(None, true), OutputPathStep::Ask));
    assert!(matches!(resolve_output_path(None, false),
        OutputPathStep::Refuse(e) if e.to_text().contains("does not support form elicitation")));
}

#[test]
fn replies_are_turned_into_paths() {
    let text = |reply: ElicitationReply| path_from_reply(reply).expect_err("no path").to_text();
    let error = || "boom".to_string();
    assert_eq!(
        path_from_reply(ElicitationReply::Accepted { output_path: "p.wpix".to_string() })
            .expect("a path"),
        "p.wpix"
    );
    assert_eq!(
        text(ElicitationReply::Accepted { output_path: "\n".to_string() }),
        "The elicited output_path was empty. Please provide a valid path."
    );
    assert_eq!(
        text(ElicitationReply::NoSchema { error: error() }),
        "Could not build the output-path form schema: boom"
    );
    assert_eq!(
        text(ElicitationReply::NotSent { error: error() }),
        "Could not request output_path from the client: boom"
    );
    assert_eq!(
        text(ElicitationReply::CallCancelled),
        "Output-path elicitation was cancelled with the tool request."
    );
    assert_eq!(
        text(ElicitationReply::TimedOut),
        "Output-path elicitation timed out after 5 minutes. Please pass output_path."
    );
    assert_eq!(
        text(ElicitationReply::Closed),
        "The client connection closed during output-path elicitation."
    );
    assert_eq!(
        text(ElicitationReply::Failed { error: error() }),
        "Output-path elicitation failed: boom"
    );
    assert_eq!(
        text(ElicitationReply::Unexpected),
        "Client returned an unexpected response to output-path elicitation."
    );
    assert_eq!(
        text(ElicitationReply::AcceptedWithoutContent),
        "The client accepted output-path elicitation without providing content. Please pass output_path."
    );
    assert_eq!(
        text(ElicitationReply::AcceptedUnreadable { error: error() }),
        "The elicited output_path could not be parsed: boom"
    );
    assert_eq!(
        text(ElicitationReply::Declined),
        "Output-path elicitation was declined. Please pass output_path."
    );
    assert_eq!(
        text(ElicitationReply::Cancelled),
        "Output-path elicitation was cancelled. Please pass output_path."
    );
    assert_eq!(
        text(ElicitationReply::UnsupportedAction),
        "Client returned an unsupported output-path elicitation action. Please pass output_path."
    );
}

#[test]
fn internal_errors_are_not_told() {
    assert_eq!(
        map_resource_error(ResourceReadError::Internal("secret".to_string())),
        (ErrorKind::InternalError, "Failed to read PIX resource".to_string())
    );
    assert_eq!(
        map_resource_error(ResourceReadError::NotFound("gone".to_string())),
        (ErrorKind::ResourceNotFound, "gone".to_string())
    );
    assert_eq!(
        map_resource_error(ResourceReadError::InvalidRequest("bad".to_string())),
        (ErrorKind::InvalidParams, "bad".to_string())
    );
    assert_eq!(
        map_prompt_error(ResourceReadError::NotFound("gone".to_string())),
        (ErrorKind::InvalidParams, "gone".to_string())
    );
    assert_eq!(
        map_prompt_error(ResourceReadError::Internal("secret".to_string())),
        (
            ErrorKind::InternalError,
            "Could not validate the PIX capture for this prompt".to_string()
        )
    );
    assert_eq!(
        permit_refused(ToolPermitError::Busy),
        (
            true,
            "Server is busy: timed out waiting for a tool execution slot".to_string()
        )
    );
    assert!(!permit_refused(ToolPermitError::Cancelled).0);
    assert!(!permit_refused(ToolPermitError::Closed).0);
}

#[test]
fn capability_probe_uses_complete_command_tokens() {
    let help = "Usage: pixtool <command>\ntake-capture programmatic-capture take-new-timing-capture\nsave-event-list save-resource save-screenshot collect-occupancy\nsave-high-frequency-counters upgrade-gpu-capture\n";
    let capabilities = parse_capabilities(help);
    assert!(capabilities.gpu_capture);
    assert!(capabilities.programmatic_capture);
    assert!(capabilities.timing_capture);
    assert!(capabilities.event_analysis);
    assert!(capabilities.resource_export);
    assert!(capabilities.high_frequency_counters);
    assert!(capabilities.occupancy_collection);
    assert!(capabilities.capture_upgrade);
    assert_eq!(capabilities.detected_commands.len(), 9);
    assert_eq!(capabilities.detected_commands[0], "take-capture");

    // A longer token must not be treated as an advertised command.
    assert!(!help_has_command(
        "Usage: pixtool save-event-listing",
        "save-event-list"
    ));
}

#[test]
fn version_is_only_inferred_from_version_like_installation_directories() {
    assert_eq!(
        infer_installation_version("root/2603.25/pixtool.exe"),
        Some("2603.25".to_string())
    );
    assert_eq!(infer_installation_version("root/pix/pixtool.exe"), None);
    assert_eq!(infer_installation_version("pixtool.exe"), None);
    assert_eq!(version_of_directory("..."), None);
    assert_eq!(version_of_directory("2.5"), Some("2.5".to_string()));
    assert_eq!(version_of_directory(""), None);
}

#[test]
fn health_checks_are_read() {
    let help = "USAGE: PIXTOOL\n  Open-Capture\n  save-resource\n";
    let found = probe_pixtool(help, "").expect("help");
    assert!(!found.resource_export && !found.gpu_capture);
    assert_eq!(found.detected_commands, vec!["save-resource"]);
    assert_eq!(
        probe_pixtool("hello", "").expect_err("no help").to_text(),
        "the resolved executable did not return recognizable pixtool help"
    );
    assert_eq!(
        probe_pixtool(help, " [pix-mcp: process output truncated]").expect_err("cut").to_text(),
        "pixtool health-check output exceeded the server limit"
    );
}

#[test]
fn status_reports_suggest_what_to_do() {
    let missing = status_report(
        PixtoolProbe::Missing { error: "none".to_string() },
        false,
        false,
        "captures".to_string(),
    );
    assert!(!missing.ready && !missing.pixtool.found);
    assert_eq!(missing.suggestions.len(), 3);
    assert_eq!(missing.status, "PIX is not fully configured");
    assert_eq!(missing.pixtool.error.as_deref(), Some("none"));
    assert_eq!(missing.pixstorage.note, unavailable_pixstorage().note);

    let found = |capabilities| PixtoolProbe::Found {
        path: "p/2603.25/pixtool.exe".to_string(),
        version: Some("2603.25".to_string()),
        capabilities,
        pixstorage: inspect_pixstorage("p/2603.25/PixStorage.dll".to_string(), true),
    };
    let ready = status_report(
        found(Ok(parse_capabilities("take-capture"))),
        true,
        true,
        "captures".to_string(),
    );
    assert!(ready.ready && ready.capabilities.is_some());
    assert_eq!(ready.suggestions, vec!["All systems operational"]);
    assert_eq!(ready.pixtool_version.as_deref(), Some("2603.25"));
    assert_eq!(
        ready.pixstorage.path.as_deref(),
        Some("p/2603.25/PixStorage.dll")
    );

    let broken = status_report(
        found(Err("no help".to_string())),
        true,
        false,
        "captures".to_string(),
    );
    assert!(!broken.ready && broken.pixtool.found && broken.capabilities.is_none());
    assert_eq!(broken.suggestions.len(), 2);
    assert!(broken.privileges_note.contains("blocked while elevated"));
    assert!(!inspect_pixstorage("x".to_string(), false).found);
}
