use pix_mcp::events::{
    analyze_counter_pattern, analyze_events_summary, bounded_inline_header, event_list_counters,
    event_list_limit, event_output_path, event_page, inspect_event_csv_bytes, page_report,
    read_event_list, AnalyzeCaptureArgs, EventCsvInspection, EventListArgs, ResponseFormat,
    EVENT_LIST_MAX_LIMIT, MAX_ANALYZE_PREVIEW_ROW_BYTES, MAX_INLINE_EVENT_PAYLOAD_BYTES,
};
use pix_mcp::analysis::CommandOutput;
use pix_mcp::files::{
    check_bytes_read, check_comparison_csv, check_destination, check_event_csv, check_file,
    persist_failed, Destination,
};
use pix_mcp::pixtool::Argument;
use pix_mcp::failure::Failure;
use pix_mcp::plans::{
    accept_comparison_export, answer_analysis, answer_frame, EventListPlan,
};
use pix_mcp::exports::parse_comparison_csv_bytes;
use pix_mcp::tables::{
    csv_record_to_string, parse_csv_bytes, parse_csv_bytes_with_limit, table_from_rows,
    validate_event_list_headers, ParsedCsv, MAX_ANALYSIS_CSV_ROWS,
};

fn record(fields: &[&str]) -> Vec<String> {
    fields.iter().map(|field| field.to_string()).collect()
}

fn args() -> EventListArgs {
    EventListArgs {
        capture_path: "a.wpix".to_string(),
        output_path: None,
        counters: None,
        response_format: None,
        offset: None,
        limit: None,
    }
}

fn quiet() -> CommandOutput {
    CommandOutput {
        success: true,
        exit_code: Some(0),
        status: "exit status: 0".to_string(),
        stdout: String::new(),
        stderr: String::new(),
        public_stdout: String::new(),
        public_stderr: String::new(),
    }
}

#[test]
fn test_response_format_default_limits() {
    assert_eq!(ResponseFormat::Summary.default_limit(), 50);
    assert_eq!(ResponseFormat::Full.default_limit(), 500);
}

#[test]
fn test_csv_parser_handles_bom_quotes_commas_and_multiline_fields() {
    let csv = "\u{feff}\"Counter, Name\",Value,Note\r\n\"GPU \"\"Busy\"\"\",12.5,\"first line\nsecond line\"\r\n";

    let parsed = parse_csv_bytes(csv.as_bytes()).expect("parse quoted CSV");
    assert_eq!(parsed.headers[0], "Counter, Name");
    assert_eq!(parsed.records.len(), 1);
    assert_eq!(parsed.records[0][0], "GPU \"Busy\"");
    assert_eq!(parsed.records[0][2], "first line\nsecond line");

    let serialized = csv_record_to_string(&parsed.records[0]);
    assert!(serialized.contains("\"GPU \"\"Busy\"\"\""));
    assert!(serialized.contains("\"first line\nsecond line\""));
}

#[test]
fn written_records_are_read_back() {
    let fields = record(&["plain", "a,b", "say \"hi\"", "", "x\r\ny", " spaced "]);
    let line = csv_record_to_string(&fields);
    assert_eq!(line, "plain,\"a,b\",\"say \"\"hi\"\"\",,\"x\r\ny\", spaced ");
    let text = format!("a,b,c,d,e,f\n{line}\n");
    let parsed = parse_csv_bytes(text.as_bytes()).expect("a table");
    assert_eq!(parsed.records, vec![fields]);
    assert_eq!(csv_record_to_string(&record(&[""])), "\"\"");
    assert_eq!(csv_record_to_string(&record(&[])), "\"\"");
    assert_eq!(csv_record_to_string(&record(&["", ""])), ",");
}

#[test]
fn tables_that_are_not_valid_are_refused() {
    assert_eq!(
        parse_csv_bytes(b"").expect_err("empty").to_text(),
        "Empty CSV file"
    );
    assert_eq!(
        parse_csv_bytes(&[0xEF, 0xBB, 0xBF]).expect_err("mark only").to_text(),
        "Empty CSV file"
    );
    assert_eq!(
        parse_csv_bytes(b"\xFF,b\n1,2\n").expect_err("header").to_text(),
        "Invalid CSV header"
    );
    assert_eq!(
        parse_csv_bytes(b"a, \n1,2\n").expect_err("blank column").to_text(),
        "CSV file contains an empty header column"
    );
    assert_eq!(
        parse_csv_bytes(b"a,b\n1,2\n3\n").expect_err("short row").to_text(),
        "Invalid CSV record at data row 2"
    );
    assert_eq!(
        parse_csv_bytes_with_limit(b"a\n1\n2\n3\n", 2).expect_err("too many").to_text(),
        "CSV contains more than the supported maximum of 2 data rows"
    );
    assert_eq!(
        parse_csv_bytes_with_limit(b"a\n1\n2\n", 2).expect("just enough").records.len(),
        2
    );
    assert_eq!(
        table_from_rows(Some(Vec::new()), Vec::new(), 5).expect_err("no columns").to_text(),
        "CSV file has no header columns"
    );
    assert_eq!(
        table_from_rows(Some(record(&["a"])), vec![Some(record(&["1"])), None], 5)
            .expect_err("a bad row")
            .to_text(),
        "Invalid CSV record at data row 2"
    );
}

#[test]
fn test_event_list_requires_pix_identity_headers() {
    for header in ["Name,Global ID", "Queue ID,Global ID", "Queue ID,Name"] {
        let parsed = parse_csv_bytes(format!("{header}\nvalue,1\n").as_bytes())
            .expect("parse syntactically valid CSV");
        assert!(
            validate_event_list_headers(&parsed.headers).is_err(),
            "unexpectedly accepted {header}"
        );
    }
    let headers = record(&[" QUEUE id ", "name", "Global ID"]);
    assert!(validate_event_list_headers(&headers).is_ok());
    assert_eq!(
        validate_event_list_headers(&record(&["Queue ID"])).expect_err("no name").to_text(),
        "CSV output is not a PIX event list: required column \"name\" is missing"
    );
}

#[test]
fn event_lists_need_events() {
    let bytes = b"Queue ID,Name,Global ID\n";
    assert_eq!(
        read_event_list(bytes, "e.csv").expect_err("no rows").to_text(),
        "CSV output contains a header but no data rows: e.csv"
    );
    let one = read_event_list(b"Queue ID,Name,Global ID\n0,Draw,1\n", "e.csv").expect("a list");
    assert_eq!(one.records.len(), 1);
}

#[test]
fn test_event_limit_rejects_zero_and_caps_large_values() {
    assert!(event_list_limit(Some(0), ResponseFormat::Summary).is_err());
    assert_eq!(
        event_list_limit(None, ResponseFormat::Summary).expect("default"),
        50
    );
    assert_eq!(
        event_list_limit(Some(usize::MAX), ResponseFormat::Full).expect("capped"),
        EVENT_LIST_MAX_LIMIT
    );
}

#[test]
fn test_event_page_enforces_inline_byte_budget() {
    let first = record(&["0", &"a".repeat(600_000), "1"]);
    let second = record(&["0", &"b".repeat(600_000), "2"]);
    let parsed = ParsedCsv {
        headers: record(&["Queue ID", "Name", "Global ID"]),
        records: vec![first, second],
    };

    let page = event_page(&parsed, 0, 2).expect("bounded page");
    assert_eq!(page.rows.len(), 1);
    assert!(page.byte_limited);
    assert_eq!(page.offset + page.rows.len(), 1);

    let oversized = record(&["0", &"x".repeat(MAX_INLINE_EVENT_PAYLOAD_BYTES), "1"]);
    let parsed = ParsedCsv {
        headers: record(&["Queue ID", "Name", "Global ID"]),
        records: vec![oversized],
    };
    assert!(event_page(&parsed, 0, 1).is_err());
    assert!(bounded_inline_header("h".repeat(MAX_INLINE_EVENT_PAYLOAD_BYTES)).is_none());
    assert_eq!(
        bounded_inline_header("Queue ID,Name,Global ID".to_string()).as_deref(),
        Some("Queue ID,Name,Global ID")
    );
}

#[test]
fn pages_follow_each_other_without_a_gap() {
    let parsed = ParsedCsv {
        headers: record(&["Queue ID", "Name", "Global ID"]),
        records: (0..7).map(|n| record(&["0", "Draw", &n.to_string()])).collect(),
    };
    let mut offset = 0;
    let mut rows: Vec<String> = Vec::new();
    loop {
        let page = event_page(&parsed, offset, 3).expect("a page");
        let report = page_report(page);
        rows.extend(report.rows.expect("rows"));
        match report.next_offset {
            Some(next) => offset = next,
            None => break,
        }
    }
    let expected: Vec<String> = (0..7).map(|n| format!("0,Draw,{n}")).collect();
    assert_eq!(rows, expected);

    let first = page_report(event_page(&parsed, 0, 3).expect("a page"));
    assert_eq!(
        first.message.as_deref(),
        Some("Showing rows 0..3 of 7. Pass offset=3 for the next page, or output_path to save the full CSV.")
    );
    let beyond = page_report(event_page(&parsed, 99, 3).expect("a page"));
    assert_eq!(beyond.offset, Some(7));
    assert_eq!(beyond.returned, Some(0));
    assert_eq!(beyond.truncated, Some(false));
    assert_eq!(beyond.message, None);
}

#[test]
fn test_analyze_preview_enforces_inline_byte_budget() {
    let oversized = record(&["0", &"x".repeat(MAX_ANALYZE_PREVIEW_ROW_BYTES + 1), "1"]);
    let parsed = ParsedCsv {
        headers: record(&["Queue ID", "Name", "Global ID"]),
        records: vec![oversized],
    };

    let summary = analyze_events_summary(&parsed).expect("bounded analysis preview");
    assert_eq!(summary.preview.len(), 0);
    assert!(summary.preview_truncated);
    assert_eq!(summary.total_events, 1);
    assert_eq!(summary.header, "Queue ID,Name,Global ID");
}

#[test]
fn previews_show_the_first_rows() {
    let parsed = ParsedCsv {
        headers: record(&["Name", "Note"]),
        records: (0..25).map(|n| record(&["a,b", &n.to_string()])).collect(),
    };
    let summary = analyze_events_summary(&parsed).expect("a preview");
    assert_eq!(summary.preview.len(), 20);
    assert!(summary.preview_truncated);
    assert_eq!(summary.preview[3].raw, "\"a,b\",3");
    assert_eq!(summary.preview[3].fields, record(&["a,b", "3"]));

    let wide = ParsedCsv {
        headers: vec!["h".repeat(MAX_ANALYZE_PREVIEW_ROW_BYTES + 1)],
        records: Vec::new(),
    };
    assert_eq!(
        analyze_events_summary(&wide).expect_err("large header").to_text(),
        "Event-list header is too large to return in the analysis preview"
    );
    let escaped = ParsedCsv {
        headers: vec!["\u{1}".repeat(100_000)],
        records: Vec::new(),
    };
    assert_eq!(
        analyze_events_summary(&escaped).expect_err("large JSON").to_text(),
        "Analysis preview exceeded its 524288 byte inline budget"
    );
}

#[test]
fn test_event_output_rejects_capture_paths() {
    assert!(event_output_path(Some("capture.wpix")).is_err());
    assert!(event_output_path(Some("events.CSV")).is_ok());
    assert!(event_output_path(Some(" ")).is_err());
    assert_eq!(event_output_path(None).expect("nothing asked"), None);
    assert!(event_output_path(Some(".csv")).is_err());
}

#[test]
fn test_file_backed_event_validation_streams_past_inline_row_cap() {
    let header = record(&["Queue ID", "Name", "Global ID"]);
    let mut inspection = EventCsvInspection::start(Some(header)).expect("an event list");
    for _ in 0..=MAX_ANALYSIS_CSV_ROWS {
        inspection.row(true).expect("a valid row");
    }
    let summary = inspection.finish(false, "e.csv").expect("stream event CSV");
    assert_eq!(summary.total_events, MAX_ANALYSIS_CSV_ROWS + 1);
    assert_eq!(summary.header, "Queue ID,Name,Global ID");
}

#[test]
fn file_backed_event_lists_are_checked() {
    assert_eq!(
        EventCsvInspection::start(None).map(|_| ()).expect_err("no header").to_text(),
        "Invalid CSV header"
    );
    assert_eq!(
        EventCsvInspection::start(Some(record(&["a", " "])))
            .map(|_| ())
            .expect_err("blank column")
            .to_text(),
        "CSV file must contain non-empty header columns"
    );
    assert!(EventCsvInspection::start(Some(record(&["a"]))).is_err());

    let header = record(&["Queue ID", "Name", "Global ID"]);
    let mut inspection = EventCsvInspection::start(Some(header.clone())).expect("an event list");
    inspection.row(true).expect("a valid row");
    assert_eq!(
        inspection.row(false).expect_err("bad row").to_text(),
        "Invalid CSV record at data row 2"
    );
    assert!(inspection
        .finish(true, "e.csv")
        .expect_err("grown")
        .to_text()
        .starts_with("CSV output grew beyond the maximum of 134217728 bytes"));
    let empty = EventCsvInspection::start(Some(header)).expect("an event list");
    assert_eq!(
        empty.finish(false, "e.csv").expect_err("no rows").to_text(),
        "CSV output contains a header but no data rows: e.csv"
    );
}

#[test]
fn counter_patterns_must_not_be_blank() {
    let mut capture = AnalyzeCaptureArgs {
        capture_path: "a.wpix".to_string(),
        include_counters: None,
        counter_pattern: Some(" ".to_string()),
    };
    assert_eq!(analyze_counter_pattern(&capture).expect("no counters"), None);
    capture.include_counters = Some(true);
    assert!(analyze_counter_pattern(&capture).is_err());
    capture.counter_pattern = None;
    assert_eq!(
        analyze_counter_pattern(&capture).expect("all counters").as_deref(),
        Some("*")
    );
    let mut list = args();
    assert_eq!(event_list_counters(&list).expect("no counters"), None);
    list.counters = Some("".to_string());
    assert!(event_list_counters(&list).is_err());
    list.counters = Some("D3D*".to_string());
    assert_eq!(
        event_list_counters(&list).expect("a pattern").as_deref(),
        Some("D3D*")
    );
}

#[test]
fn event_list_plans_lead_to_an_answer() {
    let mut request = args();
    request.limit = Some(2);
    request.counters = Some("*".to_string());
    let plan = EventListPlan::new(&request).expect("a plan");
    let command = plan.command("a.wpix", "e.csv").expect("a command");
    assert_eq!(command.len(), 5);
    assert!(matches!(&command[4], Argument::Valued { option, value }
        if option == "--counters" && value == "*"));
    let bytes = b"Queue ID,Name,Global ID\n0,A,1\n0,B,2\n0,C,3\n";
    let report = plan.answer_inline(&quiet(), Ok(bytes.to_vec()), "e.csv").expect("a page");
    assert_eq!(report.rows, Some(vec!["0,A,1".to_string(), "0,B,2".to_string()]));
    assert_eq!(report.next_offset, Some(2));
    assert_eq!(report.total_events, 3);
    assert_eq!(
        report.to_json(),
        "{\"success\":true,\"message\":\"Showing rows 0..2 of 3. Pass offset=2 for the next page, or output_path to save the full CSV.\",\"total_events\":3,\"offset\":0,\"returned\":2,\"truncated\":true,\"next_offset\":2,\"header\":\"Queue ID,Name,Global ID\",\"rows\":[\"0,A,1\",\"0,B,2\"]}"
    );

    let mut failing = quiet();
    failing.stderr = "error: no replay".to_string();
    failing.public_stderr = failing.stderr.clone();
    let refused = EventListPlan::new(&args()).expect("a plan");
    assert!(refused.answer_inline(&failing, Ok(bytes.to_vec()), "e.csv").is_err());
    let unusable = EventListPlan::new(&args()).expect("a plan");
    assert_eq!(
        unusable.answer_inline(&quiet(), Ok(Vec::new()), "e.csv").expect_err("empty").to_text(),
        "Failed to generate a valid event list: Empty CSV file\nstdout: \nstderr: "
    );
    let missing = EventListPlan::new(&args()).expect("a plan");
    let unread = Err(Failure::of("CSV output not found: e.csv"));
    assert_eq!(
        missing.answer_inline(&quiet(), unread, "e.csv").expect_err("missing").to_text(),
        "Failed to generate a valid event list: CSV output not found: e.csv\nstdout: \nstderr: "
    );
}

#[test]
fn saved_event_lists_are_accepted_before_they_are_moved() {
    let mut request = args();
    request.output_path = Some("events.csv".to_string());
    let plan = EventListPlan::new(&request).expect("a plan");
    assert_eq!(plan.output_path().as_deref(), Some("events.csv"));
    let header = record(&["Queue ID", "Name", "Global ID"]);
    let mut inspection = EventCsvInspection::start(Some(header)).expect("an event list");
    inspection.row(true).expect("a valid row");
    let staged = plan
        .accept_file(&quiet(), inspection.finish(false, "e.csv"))
        .expect("a staged list");
    let report = staged.answer("events.csv".to_string());
    assert_eq!(report.output_path.as_deref(), Some("events.csv"));
    assert_eq!(report.message.as_deref(), Some("Full event list saved to CSV"));
    assert_eq!(report.total_events, 1);
    assert_eq!(report.rows, None);

    request.output_path = Some("capture.wpix".to_string());
    assert!(EventListPlan::new(&request).is_err());
    request.output_path = None;
    request.limit = Some(0);
    assert!(EventListPlan::new(&request).is_err());
}

#[test]
fn files_are_checked_before_they_are_read() {
    assert!(check_file("CSV output", "e.csv", true, 5, 10).is_ok());
    assert_eq!(
        check_file("CSV output", "e.csv", false, 5, 10).expect_err("no file").to_text(),
        "CSV output is not a file: e.csv"
    );
    assert_eq!(
        check_file("CSV output", "e.csv", true, 0, 10).expect_err("empty").to_text(),
        "CSV output is empty: e.csv"
    );
    assert_eq!(
        check_file("CSV output", "e.csv", true, 11, 10).expect_err("large").to_text(),
        "CSV output is too large (11 bytes; maximum 10): e.csv"
    );
    assert!(check_bytes_read("CSV output", "e.csv", 10, 10).is_ok());
    assert_eq!(
        check_bytes_read("CSV output", "e.csv", 11, 10).expect_err("grown").to_text(),
        "CSV output grew beyond the maximum of 10 bytes while it was read: e.csv"
    );
    assert!(check_event_csv("e.csv", true, 1, 10).is_ok());
    assert!(check_event_csv("e.csv", true, 0, 10).is_err());
    assert_eq!(
        check_event_csv("e.csv", true, 12, 10).expect_err("large").to_text(),
        "CSV output is too large (12 bytes; maximum 10): e.csv"
    );
    assert_eq!(
        check_comparison_csv(0, 10).expect_err("empty").to_text(),
        "Empty event-list CSV"
    );
    assert_eq!(
        check_comparison_csv(11, 10).expect_err("large").to_text(),
        "Comparison event list exceeds the 10 byte limit"
    );
    assert!(check_comparison_csv(10, 10).is_ok());
}

#[test]
fn destinations_must_name_a_file_in_a_directory() {
    let fine = Destination {
        is_directory: false,
        parent: ".".to_string(),
        parent_is_directory: true,
    };
    assert!(check_destination("e.csv", &fine).is_ok());
    assert_eq!(
        check_destination("..", &fine).expect_err("no file").to_text(),
        "Output path must name a file"
    );
    let directory = Destination {
        is_directory: true,
        parent: ".".to_string(),
        parent_is_directory: true,
    };
    assert_eq!(
        check_destination("e.csv", &directory).expect_err("directory").to_text(),
        "Output path is a directory: e.csv"
    );
    let orphan = Destination {
        is_directory: false,
        parent: "gone".to_string(),
        parent_is_directory: false,
    };
    assert_eq!(
        check_destination("e.csv", &orphan).expect_err("no parent").to_text(),
        "Output directory does not exist or is not a directory: gone"
    );
    assert_eq!(
        persist_failed("e.csv", true, "denied").to_text(),
        "Failed to replace output file e.csv: denied"
    );
    assert_eq!(
        persist_failed("e.png", false, "exists").to_text(),
        "Failed to create output file e.png: exists"
    );
}

#[test]
fn analyses_lead_to_an_answer() {
    let bytes = b"Queue ID,Name,Global ID\n0,\"A,B\",1\n0,Draw,2\n";
    let mut printed = quiet();
    printed.public_stdout = "done".to_string();
    let report = answer_analysis(
        "a.wpix".to_string(),
        2_097_152,
        "2.00".to_string(),
        &printed,
        Ok(bytes.to_vec()),
        "e.csv",
    )
    .expect("a preview");
    assert_eq!(report.events.total_events, 2);
    assert_eq!(report.pixtool_output, "done");
    let json: serde_json::Value = serde_json::from_str(&report.to_json()).expect("valid JSON");
    assert_eq!(json["file_size_mb"], "2.00");
    assert_eq!(json["events"]["preview"][0]["raw"], "0,\"A,B\",1");
    assert_eq!(json["events"]["preview"][0]["fields"][1], "A,B");
    assert_eq!(json["events"]["preview_truncated"], false);

    let error = answer_analysis(
        "a.wpix".to_string(),
        1,
        "0.00".to_string(),
        &printed,
        Ok(b"Name\nx\n".to_vec()),
        "e.csv",
    )
    .expect_err("no event list");
    assert_eq!(
        error.to_text(),
        "Failed to extract a valid event list: CSV output is not a PIX event list: required column \"queue id\" is missing\nstdout: done\nstderr: "
    );

    let frame = answer_frame("a.wpix", &quiet(), Ok(bytes.to_vec()), "e.csv").expect("a summary");
    assert_eq!(frame.draw_calls, 1);
    let error = answer_frame("a.wpix", &quiet(), Ok(Vec::new()), "e.csv").expect_err("empty");
    assert_eq!(
        error.to_text(),
        "pixtool did not produce a valid event list: Empty CSV file\nstdout: \nstderr: "
    );
}

#[test]
fn comparison_exports_are_accepted_after_their_command() {
    let bytes = b"Queue ID,Name,Global ID\n0,A,1\n";
    let accepted = accept_comparison_export(&quiet(), parse_comparison_csv_bytes(bytes, 5));
    assert_eq!(accepted.expect("an export").total_events, 1);
    let unread = accept_comparison_export(&quiet(), parse_comparison_csv_bytes(b"", 5));
    assert_eq!(unread.expect_err("empty").to_text(), "Empty event-list CSV");
    let mut failing = quiet();
    failing.success = false;
    failing.exit_code = Some(3);
    let refused = accept_comparison_export(&failing, parse_comparison_csv_bytes(bytes, 5));
    assert_eq!(
        refused.expect_err("status").to_text(),
        "pixtool capture comparison failed with exit code Some(3).\n"
    );
}

#[test]
fn inline_answers_stay_within_their_budget() {
    let row = format!("0,{},1\n", "\u{1}".repeat(10_000));
    let bytes = format!("Queue ID,Name,Global ID\n{}", row.repeat(40)).into_bytes();
    let mut request = args();
    request.limit = Some(2000);
    let plan = EventListPlan::new(&request).expect("a plan");
    let report = plan.answer_inline(&quiet(), Ok(bytes), "e.csv").expect("a page");
    assert!(report.returned.expect("a count") > 10);
    assert_eq!(report.truncated, Some(true));
    assert!(report.to_json().len() <= MAX_INLINE_EVENT_PAYLOAD_BYTES);
}

#[test]
fn event_list_plans_are_refused_with_their_reason() {
    let mut request = args();
    request.output_path = Some("events.csv".to_string());
    request.counters = Some(" ".to_string());
    assert_eq!(
        EventListPlan::new(&request).expect_err("blank counters").to_text(),
        "counters must not be empty"
    );
    request.output_path = Some("events.txt".to_string());
    assert_eq!(
        EventListPlan::new(&request).expect_err("no csv").to_text(),
        "output_path must end with .csv; refusing to risk overwriting a non-CSV file"
    );
    request.output_path = Some("  ".to_string());
    assert_eq!(
        EventListPlan::new(&request).expect_err("no path").to_text(),
        "output_path must not be empty"
    );
}

#[test]
fn event_list_bytes_are_checked_and_counted() {
    let list = b"\xEF\xBB\xBFQueue ID,Name,Global ID\n0,A,1\n0,\"B,C\",2\n";
    let summary = inspect_event_csv_bytes(list, "e.csv").expect("an event list");
    assert_eq!(summary.header, "Queue ID,Name,Global ID");
    assert_eq!(summary.total_events, 2);
    let refused = |bytes: &[u8]| {
        inspect_event_csv_bytes(bytes, "e.csv").expect_err("refused").to_text()
    };
    assert_eq!(refused(b""), "CSV output is missing or empty: e.csv");
    assert_eq!(
        refused(b"Queue ID,Name,Global ID\n"),
        "CSV output contains a header but no data rows: e.csv"
    );
    assert_eq!(
        refused(b"Queue ID,Name,Global ID\n0,A,1\n0,B\n"),
        "Invalid CSV record at data row 2"
    );
    assert_eq!(
        refused(b"Queue ID, ,Global ID\n0,A,1\n"),
        "CSV file must contain non-empty header columns"
    );
    assert_eq!(refused(b"Queue \xFF,Name\n0,A\n"), "Invalid CSV header");
    assert_eq!(
        refused(&vec![b'a'; 134_217_729]),
        "CSV output is too large (134217729 bytes; maximum 134217728): e.csv"
    );
}
