use pix_mcp::finite::Double;
use pix_mcp::frame::{
    bounded_frame_columns, bounded_record_summary, FrameInsights, TimedEvent,
    MAX_FRAME_TEXT_FIELD_BYTES,
};
use pix_mcp::frame_answer::{
    fit_frame_insights_payload, frame_insights_from_csv, MAX_INLINE_ANALYSIS_PAYLOAD_BYTES,
};
use pix_mcp::tables::{parse_csv_bytes, ParsedCsv};

fn parse(bytes: &[u8]) -> ParsedCsv {
    parse_csv_bytes(bytes).expect("parse frame CSV")
}

fn record(fields: &[&str]) -> Vec<String> {
    fields.iter().map(|field| field.to_string()).collect()
}

fn times(report: &FrameInsights) -> Vec<f64> {
    report
        .top_events
        .iter()
        .map(|event| f64::from_bits(event.gpu_time.bits))
        .collect()
}

#[test]
fn test_frame_insights_use_logical_csv_records_and_valid_artifact_success() {
    let parsed = parse(
        b"Name,GPU Duration\n\"Draw, Indexed\",1.25\nDispatch,4.5\nResourceBarrier,0.5\n",
    );
    let report = frame_insights_from_csv("capture.wpix", &parsed).expect("insights");

    assert!(report.success);
    assert_eq!(report.total_events, 3);
    assert_eq!(report.draw_calls, 1);
    assert_eq!(report.dispatches, 1);
    assert_eq!(report.resource_barriers, 1);
    assert_eq!(report.top_events[0].event, "Dispatch");
    assert_eq!(f64::from_bits(report.top_events[0].gpu_time.bits), 4.5);
}

#[test]
fn test_frame_insights_prefer_event_name_and_gpu_duration_columns() {
    let parsed = parse(b"Event ID,Event Name,CPU Duration,GPU Duration\nDrawId,Dispatch,999,2.5\n");
    let report = frame_insights_from_csv("capture.wpix", &parsed).expect("insights");

    assert_eq!(report.dispatches, 1);
    assert_eq!(report.draw_calls, 0);
    assert_eq!(report.top_events[0].event, "Dispatch");
    assert_eq!(f64::from_bits(report.top_events[0].gpu_time.bits), 2.5);
}

#[test]
fn test_frame_insights_bounds_pathological_event_names() {
    let parsed = ParsedCsv {
        headers: record(&["Name", "GPU Duration"]),
        records: vec![record(&[&"Draw".repeat(MAX_FRAME_TEXT_FIELD_BYTES), "1.25"])],
    };

    let report = frame_insights_from_csv("capture.wpix", &parsed).expect("insights");
    assert!(
        report.notes.iter().any(|note| note.contains("truncated")),
        "the report should disclose event-name truncation"
    );
    assert!(report.top_events[0].event.len() <= MAX_FRAME_TEXT_FIELD_BYTES);
    assert_eq!(report.draw_calls, 1);
}

#[test]
fn top_events_descend_and_keep_the_order_of_equals() {
    let mut csv = String::from("Name,GPU Time\n");
    for (name, time) in [
        ("a", "1"), ("b", "-2"), ("c", "1"), ("d", "7.5"), ("e", "nan"), ("f", "inf"),
        ("g", "0"), ("h", "-0"), ("i", "3"), ("j", "4"), ("k", "5"), ("l", "6"), ("m", "x"),
        ("n", "1e-3"),
    ] {
        csv.push_str(&format!("{name},{time}\n"));
    }
    let report = frame_insights_from_csv("capture.wpix", &parse(csv.as_bytes())).expect("insights");
    let names: Vec<&str> = report.top_events.iter().map(|event| event.event.as_str()).collect();
    assert_eq!(names, vec!["d", "l", "k", "j", "i", "a", "c", "n", "g", "h"]);
    assert_eq!(times(&report)[0], 7.5);
    assert_eq!(report.total_events, 14);
}

#[test]
fn events_are_counted_by_their_names() {
    let parsed = parse(
        b"Name\nDrawIndexed\nOMSetRenderTargets\nCopyDrawArgs\nDISPATCHMESH\nsetrendertarget\n \n",
    );
    let report = frame_insights_from_csv("capture.wpix", &parsed).expect("insights");
    assert_eq!(report.total_events, 5);
    assert_eq!(report.draw_calls, 2);
    assert_eq!(report.copies, 1);
    assert_eq!(report.dispatches, 1);
    assert_eq!(report.render_target_changes, 2);
    assert!(report.top_events.is_empty());
    assert_eq!(report.notes.len(), 2);
    assert!(report.notes[1].contains("No GPU-timing column"));
}

#[test]
fn columns_are_recognized_by_their_labels() {
    let parsed = parse(b"Queue,Pass name,Total GPU time (us)\n0,Draw,2\n");
    let report = frame_insights_from_csv("capture.wpix", &parsed).expect("insights");
    assert_eq!(report.draw_calls, 1);
    assert_eq!(times(&report), vec![2.0]);

    let unnamed = parse(b"Name ID,Value\nDraw,Copy\n");
    let report = frame_insights_from_csv("capture.wpix", &unnamed).expect("insights");
    assert_eq!(report.draw_calls, 1);
    assert_eq!(report.copies, 1);
    assert!(report.notes[1].contains("No event-name column detected"));
}

#[test]
fn whole_rows_and_labels_are_bounded() {
    let (text, cut) = bounded_record_summary(&record(&["a", "b", "c"]));
    assert_eq!(text, "a | b | c");
    assert!(!cut);
    let long = "x".repeat(MAX_FRAME_TEXT_FIELD_BYTES);
    let (text, cut) = bounded_record_summary(&record(&["a", &long]));
    assert!(cut);
    assert_eq!(text.len(), MAX_FRAME_TEXT_FIELD_BYTES);
    let (text, cut) = bounded_record_summary(&record(&[&long, "b"]));
    assert!(cut);
    assert_eq!(text.len(), MAX_FRAME_TEXT_FIELD_BYTES);

    let (columns, cut) = bounded_frame_columns(&record(&[" Name ", "GPU"]));
    assert_eq!(columns, record(&["Name", "GPU"]));
    assert!(!cut);
    let many: Vec<String> = (0..5).map(|_| long.clone()).collect();
    let (columns, cut) = bounded_frame_columns(&many);
    assert_eq!(columns.len(), 2);
    assert!(cut);
}

fn insights(columns: usize, column_bytes: usize, events: usize, name_bytes: usize) -> FrameInsights {
    FrameInsights {
        success: true,
        capture_path: "capture.wpix".to_string(),
        total_events: 1,
        draw_calls: 2,
        dispatches: 3,
        resource_barriers: 4,
        render_target_changes: 5,
        copies: 6,
        event_columns: (0..columns).map(|_| "c".repeat(column_bytes)).collect(),
        top_events: (0..events)
            .map(|_| TimedEvent {
                event: "e".repeat(name_bytes),
                gpu_time: Double {
                    bits: 2.5f64.to_bits(),
                    json: "2.5".to_string(),
                },
            })
            .collect(),
        notes: vec!["first".to_string()],
    }
}

#[test]
fn summaries_are_written_as_json() {
    assert_eq!(
        insights(1, 2, 1, 1).to_json(),
        "{\"success\":true,\"capture_path\":\"capture.wpix\",\"total_events\":1,\"draw_calls\":2,\"dispatches\":3,\"resource_barriers\":4,\"render_target_changes\":5,\"copies\":6,\"event_columns\":[\"cc\"],\"top_events\":[{\"event\":\"e\",\"gpu_time\":2.5}],\"notes\":[\"first\"]}"
    );
}

#[test]
fn summaries_are_trimmed_until_they_fit() {
    let kept = fit_frame_insights_payload(insights(2, 10, 2, 10)).expect("small enough");
    assert_eq!(kept.top_events.len(), 2);
    assert_eq!(kept.notes, vec!["first"]);

    let fewer = fit_frame_insights_payload(insights(2, 10, 6, 300_000)).expect("fewer events");
    assert_eq!(fewer.top_events.len(), 3);
    assert_eq!(fewer.event_columns.len(), 2);
    assert_eq!(
        fewer.notes,
        vec![
            "first",
            "Some event columns or top events were omitted to stay within the inline response budget.",
        ]
    );
    assert!(fewer.to_json().len() <= MAX_INLINE_ANALYSIS_PAYLOAD_BYTES);

    let narrower = fit_frame_insights_payload(insights(4, 400_000, 2, 10)).expect("fewer columns");
    assert_eq!(narrower.top_events.len(), 0);
    assert_eq!(narrower.event_columns.len(), 2);
    assert_eq!(narrower.notes.len(), 2);

    let mut large = insights(1, 10, 1, 10);
    large.capture_path = "p".repeat(MAX_INLINE_ANALYSIS_PAYLOAD_BYTES);
    assert_eq!(
        fit_frame_insights_payload(large).expect_err("too large").to_text(),
        "Frame-insights report exceeded its 1048576 byte inline budget"
    );
}
