use pix_mcp::counters::{
    counter_format, counter_value, export_counters, parse_csv_counters, parse_json_counters,
    CounterData, CounterFormat, CounterValue, ExportCountersReport,
};

fn value<'a>(report: &'a ExportCountersReport, row: usize, column: &str) -> &'a CounterValue {
    let columns = report.columns.as_ref().expect("columns");
    let at = columns.iter().position(|name| name == column).expect("a column");
    match &report.data {
        CounterData::Rows(rows) => &rows[row].values[at],
        CounterData::Json(_) => panic!("expected rows"),
    }
}

#[test]
fn test_export_counters_maps_quoted_csv_fields() {
    let report =
        parse_csv_counters("\u{feff}\"Counter, Name\",Value,Note\n\"GPU, Busy\",12.5,\"a,b\"\n")
            .expect("parse counters");

    assert_eq!(report.row_count, Some(1));
    assert_eq!(
        report.columns,
        Some(vec![
            "Counter, Name".to_string(),
            "Value".to_string(),
            "Note".to_string()
        ])
    );
    assert!(matches!(value(&report, 0, "Counter, Name"), CounterValue::Text(text) if text == "GPU, Busy"));
    assert!(matches!(value(&report, 0, "Value"), CounterValue::Number(number)
        if f64::from_bits(number.bits) == 12.5 && number.json == "12.5"));
    assert!(matches!(value(&report, 0, "Note"), CounterValue::Text(text) if text == "a,b"));
}

#[test]
fn test_export_counters_preserves_large_integer_precision() {
    let report =
        parse_csv_counters("Counter,Value\nSamples,9007199254740993\n").expect("parse counters");

    assert!(matches!(
        value(&report, 0, "Value"),
        CounterValue::Signed(9_007_199_254_740_993)
    ));
}

#[test]
fn cells_are_integers_then_numbers_then_text() {
    assert!(matches!(counter_value(" -5 "), CounterValue::Signed(-5)));
    assert!(matches!(counter_value("+7"), CounterValue::Signed(7)));
    assert!(matches!(
        counter_value("-9223372036854775808"),
        CounterValue::Signed(i64::MIN)
    ));
    assert!(matches!(
        counter_value("18446744073709551615"),
        CounterValue::Unsigned(u64::MAX)
    ));
    assert!(matches!(counter_value("18446744073709551616"), CounterValue::Number(n)
        if f64::from_bits(n.bits) == 18446744073709551616.0));
    assert!(matches!(counter_value("1e3"), CounterValue::Number(n)
        if f64::from_bits(n.bits) == 1000.0 && n.json == "1000.0"));
    assert!(matches!(counter_value("inf"), CounterValue::Text(text) if text == "inf"));
    assert!(matches!(counter_value("1e999"), CounterValue::Text(text) if text == "1e999"));
    assert!(matches!(counter_value("0x10"), CounterValue::Text(text) if text == "0x10"));
    assert!(matches!(counter_value(""), CounterValue::Text(text) if text.is_empty()));
}

#[test]
fn blank_rows_are_left_out() {
    let report = parse_csv_counters("A,B\n1,2\n , \n3,4\n").expect("parse counters");
    assert_eq!(report.row_count, Some(2));
    assert!(matches!(value(&report, 1, "A"), CounterValue::Signed(3)));
    assert!(report.success);
    assert_eq!(report.format, "csv");
}

#[test]
fn column_names_must_be_distinct() {
    let error = parse_csv_counters("Alpha,beta, ALPHA ,Beta\n1,2,3,4\n").expect_err("repeated");
    assert_eq!(
        error.to_text(),
        "CSV contains a duplicate column name: ALPHA"
    );
    assert!(parse_csv_counters("Ä,ä\n1,2\n").is_err());
    assert!(parse_csv_counters("Ä,a\n1,2\n").is_ok());
}

#[test]
fn large_counter_data_is_refused() {
    let cell = "\u{1}".repeat(1_500_000);
    let error = parse_csv_counters(&format!("A\n\"{cell}\"\n")).expect_err("too large");
    assert_eq!(
        error.to_text(),
        "Parsed counter data is too large to return (9000010 bytes; maximum 8388608). Export a smaller selection."
    );
    let error = parse_json_counters(&format!("\"{}\"", "x".repeat(8_388_607))).expect_err("large");
    assert_eq!(
        error.to_text(),
        "Parsed counter data is too large to return (8388609 bytes; maximum 8388608). Export a smaller selection."
    );
}

#[test]
fn json_counters_are_kept_compact() {
    let report = parse_json_counters("{ \"a\": [1, 2.50, null] }").expect("JSON counters");
    assert_eq!(report.format, "json");
    assert!(matches!(&report.data, CounterData::Json(text) if text == "{\"a\":[1,2.5,null]}"));
    assert_eq!(report.row_count, None);
    assert!(parse_json_counters("{").is_err());
}

#[test]
fn formats_are_named_or_detected() {
    let text = |value: &str| Some(value.to_string());
    assert_eq!(
        counter_format(&None, &text("CSV")).expect("detected"),
        CounterFormat::Csv
    );
    assert_eq!(
        counter_format(&text(" Auto "), &text("json")).expect("detected"),
        CounterFormat::Json
    );
    assert_eq!(
        counter_format(&text("JSON"), &text("csv")).expect("named"),
        CounterFormat::Json
    );
    assert_eq!(
        counter_format(&None, &None).expect_err("unknown").to_text(),
        "Cannot detect format from extension. Pass format: \"csv\" or \"json\"."
    );
    assert_eq!(
        counter_format(&text("XML"), &None).expect_err("unsupported").to_text(),
        "Unsupported format \"xml\". Use \"csv\" or \"json\"."
    );
}

#[test]
fn exported_files_are_read_in_their_format() {
    let report = export_counters("out.csv", &None, b"A\n1\n").expect("CSV file");
    assert_eq!(report.format, "csv");
    let report = export_counters("out.json", &None, b"[1]").expect("JSON file");
    assert_eq!(report.format, "json");
    let report = export_counters("out.txt", &Some("json".to_string()), b"[1]").expect("named");
    assert_eq!(report.format, "json");
    assert!(export_counters("out.txt", &None, b"[1]").is_err());
    assert_eq!(
        export_counters("out.csv", &None, b"\xFF").expect_err("bytes").to_text(),
        "Counter export is not valid UTF-8"
    );
}
