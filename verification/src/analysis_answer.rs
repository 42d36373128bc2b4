//! The answers about one capture: their JSON, and how they are kept within their budget.

use crate::analysis::{AnalysisDetail, AnalyzeReport, CountersReport, RunAnalysisReport};
use crate::failure::Failure;
use crate::frame_answer::MAX_INLINE_ANALYSIS_PAYLOAD_BYTES;
use crate::json::{
    json_array, json_array_text, json_bool, json_bool_text, json_object, json_object_text, member,
    no_members, put_count, put_member, put_text_member, quoted,
};
use crate::numbers::{decimal, signed_decimal, signed_decimal_text};
use crate::text::{byte_len, texts, utf8_len};
use vstd::prelude::*;
use vstd::string::*;

verus! {

// ---------------------------------------------------------------------------
// Previews
// ---------------------------------------------------------------------------

impl AnalyzeReport {
    pub open spec fn members(&self) -> Seq<Seq<char>> {
        seq![
            member("success"@, json_bool(self.success)),
            member("capture_path"@, quoted(self.capture_path@)),
            member("file_size_bytes"@, decimal(self.file_size_bytes as nat)),
            member("file_size_mb"@, quoted(self.file_size_mb@)),
            member("events"@, self.events.json()),
            member("pixtool_output"@, quoted(self.pixtool_output@)),
        ]
    }

    pub open spec fn json(&self) -> Seq<char> {
        json_object(self.members())
    }

    /// The preview as JSON.
    pub fn to_json(&self) -> (r: String)
        ensures
            r@ == self.json(),
    {
        let mut members = no_members();
        put_member(&mut members, "success", json_bool_text(self.success));
        put_text_member(&mut members, "capture_path", &self.capture_path);
        put_count(&mut members, "file_size_bytes", self.file_size_bytes);
        put_text_member(&mut members, "file_size_mb", &self.file_size_mb);
        put_member(&mut members, "events", &self.events.to_json());
        put_text_member(&mut members, "pixtool_output", &self.pixtool_output);
        assert(texts(members@) =~= self.members());
        json_object_text(&members)
    }
}

/// Refuses a preview that is not within the budget.
pub fn accept_analyze_report(report: AnalyzeReport) -> (r: Result<AnalyzeReport, Failure>)
    ensures
        if utf8_len(report.json()) <= MAX_INLINE_ANALYSIS_PAYLOAD_BYTES {
            r == Ok::<AnalyzeReport, Failure>(report)
        } else {
            r is Err && r->Err_0.message@
                == "Analysis report exceeded its 1048576 byte inline budget; use pix_get_event_list with output_path for the full CSV"@
        },
{
    if byte_len(&report.to_json()) > MAX_INLINE_ANALYSIS_PAYLOAD_BYTES {
        return Err(
            Failure::of(
                "Analysis report exceeded its 1048576 byte inline budget; use pix_get_event_list with output_path for the full CSV",
            ),
        );
    }
    Ok(report)
}

// ---------------------------------------------------------------------------
// Counters
// ---------------------------------------------------------------------------

impl CountersReport {
    pub open spec fn members(&self) -> Seq<Seq<char>> {
        seq![
            member("success"@, json_bool(self.success)),
            member("capture_path"@, quoted(self.capture_path@)),
            member("total_count"@, decimal(self.total_count as nat)),
            member("returned"@, decimal(self.returned as nat)),
            member("truncated"@, json_bool(self.truncated)),
            member("counters"@, json_array(texts(self.counters@))),
        ]
    }

    pub open spec fn json(&self) -> Seq<char> {
        json_object(self.members())
    }

    /// The counters as JSON.
    pub fn to_json(&self) -> (r: String)
        ensures
            r@ == self.json(),
    {
        let mut members = no_members();
        put_member(&mut members, "success", json_bool_text(self.success));
        put_text_member(&mut members, "capture_path", &self.capture_path);
        put_count(&mut members, "total_count", self.total_count as u64);
        put_count(&mut members, "returned", self.returned as u64);
        put_member(&mut members, "truncated", json_bool_text(self.truncated));
        put_member(&mut members, "counters", &json_array_text(&self.counters));
        assert(texts(members@) =~= self.members());
        json_object_text(&members)
    }
}

/// Refuses a list of counters that is not within the budget.
pub fn accept_counters_report(report: CountersReport) -> (r: Result<CountersReport, Failure>)
    ensures
        if utf8_len(report.json()) <= MAX_INLINE_ANALYSIS_PAYLOAD_BYTES {
            r == Ok::<CountersReport, Failure>(report)
        } else {
            r is Err && r->Err_0.message@
                == "Counter report exceeded its 1048576 byte inline budget; use a narrower filter"@
        },
{
    if byte_len(&report.to_json()) > MAX_INLINE_ANALYSIS_PAYLOAD_BYTES {
        return Err(
            Failure::of(
                "Counter report exceeded its 1048576 byte inline budget; use a narrower filter",
            ),
        );
    }
    Ok(report)
}

// ---------------------------------------------------------------------------
// Debug-layer playback
// ---------------------------------------------------------------------------

impl AnalysisDetail {
    pub open spec fn members(&self) -> Seq<Seq<char>> {
        seq![
            member("error_count"@, decimal(self.error_count as nat)),
            member("warning_count"@, decimal(self.warning_count as nat)),
            member("errors"@, json_array(texts(self.errors@))),
            member("warnings"@, json_array(texts(self.warnings@))),
        ]
    }

    pub open spec fn json(&self) -> Seq<char> {
        json_object(self.members())
    }

    /// The diagnostics as JSON.
    pub fn to_json(&self) -> (r: String)
        ensures
            r@ == self.json(),
    {
        let mut members = no_members();
        put_count(&mut members, "error_count", self.error_count as u64);
        put_count(&mut members, "warning_count", self.warning_count as u64);
        put_member(&mut members, "errors", &json_array_text(&self.errors));
        put_member(&mut members, "warnings", &json_array_text(&self.warnings));
        assert(texts(members@) =~= self.members());
        json_object_text(&members)
    }
}

impl RunAnalysisReport {
    /// The members of the report, with a note and an output in place of its own.
    pub open spec fn members_with(&self, note: Seq<char>, full_output: Seq<char>) -> Seq<
        Seq<char>,
    > {
        seq![
            member("success"@, json_bool(self.success)),
            member("capture_path"@, quoted(self.capture_path@)),
            member("analysis"@, self.analysis.json()),
            member(
                "process_exit_code"@,
                match self.process_exit_code {
                    Some(code) => signed_decimal(code as int),
                    None => "null"@,
                },
            ),
            member("note"@, quoted(note)),
            member("full_output"@, quoted(full_output)),
        ]
    }

    pub open spec fn json(&self) -> Seq<char> {
        json_object(self.members_with(self.note@, self.full_output@))
    }

    /// The note of a report whose output is left out.
    pub open spec fn shortened_note(&self) -> Seq<char> {
        self.note@ + "; full process output was omitted to stay within the inline response budget"@
    }

    /// The JSON of the report without its output.
    pub open spec fn shortened_json(&self) -> Seq<char> {
        json_object(self.members_with(self.shortened_note(), seq![]))
    }

    /// The report as JSON.
    pub fn to_json(&self) -> (r: String)
        ensures
            r@ == self.json(),
    {
        let mut members = no_members();
        put_member(&mut members, "success", json_bool_text(self.success));
        put_text_member(&mut members, "capture_path", &self.capture_path);
        put_member(&mut members, "analysis", &self.analysis.to_json());
        match self.process_exit_code {
            Some(code) => put_member(
                &mut members,
                "process_exit_code",
                &signed_decimal_text(code as i64),
            ),
            None => put_member(&mut members, "process_exit_code", "null"),
        }
        put_text_member(&mut members, "note", &self.note);
        put_text_member(&mut members, "full_output", &self.full_output);
        assert(texts(members@) =~= self.members_with(self.note@, self.full_output@));
        json_object_text(&members)
    }
}

/// Leaves the output out of a report that is not within the budget, and refuses one that is not
/// within it without the output, too.
pub fn fit_run_analysis_report(report: RunAnalysisReport) -> (r: Result<RunAnalysisReport, Failure>)
    ensures
        if utf8_len(report.json()) <= MAX_INLINE_ANALYSIS_PAYLOAD_BYTES {
            r == Ok::<RunAnalysisReport, Failure>(report)
        } else if utf8_len(report.shortened_json()) <= MAX_INLINE_ANALYSIS_PAYLOAD_BYTES {
            &&& r is Ok
            &&& r->Ok_0.success == report.success
            &&& r->Ok_0.capture_path == report.capture_path
            &&& r->Ok_0.analysis == report.analysis
            &&& r->Ok_0.process_exit_code == report.process_exit_code
            &&& r->Ok_0.note@ == report.shortened_note()
            &&& r->Ok_0.full_output@.len() == 0
        } else {
            r is Err && r->Err_0.message@
                == "Debug-layer report exceeded its 1048576 byte inline budget"@
        },
{
    let ghost given = report;
    let mut report = report;
    if byte_len(&report.to_json()) <= MAX_INLINE_ANALYSIS_PAYLOAD_BYTES {
        return Ok(report);
    }
    report.full_output = String::new();
    report.note.append(
        "; full process output was omitted to stay within the inline response budget",
    );
    assert(report.full_output@ =~= seq![]);
    assert(report.json() == given.shortened_json());
    if byte_len(&report.to_json()) > MAX_INLINE_ANALYSIS_PAYLOAD_BYTES {
        return Err(Failure::of("Debug-layer report exceeded its 1048576 byte inline budget"));
    }
    Ok(report)
}

} // verus!
