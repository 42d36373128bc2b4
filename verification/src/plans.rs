//! Requests that were accepted, on their way to an answer.
//!
//! What may only be done after something else was found to be in order is a method of a value
//! that exists only then.

use crate::analysis::{
    accept_command, analyze_report, artifact_problem, unusable_artifact, with_streams,
    AnalyzeReport, CommandOutput, MAX_INLINE_PROCESS_OUTPUT_BYTES,
};
use crate::analysis_answer::accept_analyze_report;
use crate::events::{
    analyze_events_summary, event_list_counters, event_list_in, event_list_limit,
    event_output_path, event_page, not_csv_text, page_of, page_report, page_rows_are_contiguous,
    preview_has_its_json, read_event_list, saved_event_list_report, summary_json, EventCsvSummary,
    EventListArgs, EventListReport, Page, ResponseFormat, EVENT_LIST_MAX_LIMIT,
    MAX_ANALYZE_EVENTS_JSON_BYTES, MAX_ANALYZE_PREVIEW_ROW_BYTES, MAX_INLINE_EVENT_PAYLOAD_BYTES,
};
use crate::failure::Failure;
use crate::frame::{summary_of, FrameInsights};
use crate::frame_answer::{frame_insights_from_csv, MAX_INLINE_ANALYSIS_PAYLOAD_BYTES};
use crate::json::{json_bool, json_object, member, quoted, quoted_len};
use crate::numbers::decimal;
use crate::paths::{is_settled, named_file, optional_has_extension};
use crate::pixtool::{
    arguments, command_failed, command_line, failed_text, gpu_capture_failed, gpu_capture_failure,
    gpu_capture_launch_failed, gpu_capture_launch_failure, is_command, is_safe, launch_options,
    launch_options_problem, only_one_application_argument_is_passed, saved_problem, str_texts,
    unsafe_text, validate_command_line_args, validate_frames, validate_raw_value,
    verify_new_capture_output, Arg, Argument, PixTool, SavedProbe,
};
use crate::sequences::ComparisonCsv;
use crate::tables::{fields_len, is_table, ParsedCsv, Table};
use crate::text::{is_blank, optional_text, texts, utf8_len};
use crate::utf8::cut;
use vstd::prelude::*;
use vstd::string::*;

verus! {

// ---------------------------------------------------------------------------
// Exported event lists
// ---------------------------------------------------------------------------

/// The event list in a file, or why there is none. `file` is what came of reading it.
pub open spec fn events_in(file: Result<Vec<u8>, Failure>, path: Seq<char>) -> Result<
    Table,
    Seq<char>,
> {
    match file {
        Ok(bytes) => event_list_in(bytes@, path),
        Err(e) => Err(e.message@),
    }
}

/// The event list that a command wrote to a file, or why it is not used. What the command
/// printed comes first; `summary` is said of a file that is no event list.
pub open spec fn exported_events(
    output: CommandOutput,
    file: Result<Vec<u8>, Failure>,
    path: Seq<char>,
    operation: Seq<char>,
    summary: Seq<char>,
) -> Result<Table, Seq<char>> {
    match artifact_problem(output, operation) {
        Some(problem) => Err(problem),
        None => match events_in(file, path) {
            Err(problem) => Err(with_streams(summary + ": "@ + problem, output)),
            Ok(contents) => Ok(contents),
        },
    }
}

/// Reads the event list that a command wrote to a file.
pub fn read_exported_events(
    output: &CommandOutput,
    file: Result<Vec<u8>, Failure>,
    path: &str,
    operation: &str,
    summary: &str,
) -> (r: Result<ParsedCsv, Failure>)
    ensures
        is_table(r, exported_events(*output, file, path@, operation@, summary@)),
{
    match accept_command(output, operation) {
        Ok(_) => {},
        Err(e) => {
            return Err(e);
        },
    }
    let parsed = match file {
        Ok(bytes) => read_event_list(&bytes, path),
        Err(e) => Err(e),
    };
    match parsed {
        Ok(parsed) => Ok(parsed),
        Err(e) => Err(unusable_artifact(summary, &e, output)),
    }
}

/// The JSON of the preview of a capture.
pub open spec fn analysis_json(
    capture_path: Seq<char>,
    file_size_bytes: nat,
    file_size_mb: Seq<char>,
    contents: Table,
    public_stdout: Seq<char>,
) -> Seq<char> {
    json_object(
        seq![
            member("success"@, json_bool(true)),
            member("capture_path"@, quoted(capture_path)),
            member("file_size_bytes"@, decimal(file_size_bytes)),
            member("file_size_mb"@, quoted(file_size_mb)),
            member("events"@, summary_json(contents)),
            member(
                "pixtool_output"@,
                quoted(cut(public_stdout, MAX_INLINE_PROCESS_OUTPUT_BYTES as nat)),
            ),
        ],
    )
}

/// Why an event list is not previewed, if it is not.
pub open spec fn preview_problem(contents: Table) -> Option<Seq<char>> {
    if fields_len(contents.headers) > MAX_ANALYZE_PREVIEW_ROW_BYTES {
        Some("Event-list header is too large to return in the analysis preview"@)
    } else if utf8_len(summary_json(contents)) > MAX_ANALYZE_EVENTS_JSON_BYTES {
        Some("Analysis preview exceeded its 524288 byte inline budget"@)
    } else {
        None
    }
}

/// The preview of a capture, given what came of exporting its event list to `csv_file` and of
/// reading it. `file_size_mb` is the size of the capture in MiB.
pub fn answer_analysis(
    capture_path: String,
    file_size_bytes: u64,
    file_size_mb: String,
    output: &CommandOutput,
    file: Result<Vec<u8>, Failure>,
    csv_file: &str,
) -> (r: Result<AnalyzeReport, Failure>)
    ensures
        match exported_events(
            *output,
            file,
            csv_file@,
            "capture analysis"@,
            "Failed to extract a valid event list"@,
        ) {
            Err(problem) => r is Err && r->Err_0.message@ == problem,
            Ok(contents) => match preview_problem(contents) {
                Some(problem) => r is Err && r->Err_0.message@ == problem,
                None => if utf8_len(
                    analysis_json(
                        capture_path@,
                        file_size_bytes as nat,
                        file_size_mb@,
                        contents,
                        output.public_stdout@,
                    ),
                ) <= MAX_INLINE_ANALYSIS_PAYLOAD_BYTES {
                    &&& r is Ok
                    &&& r->Ok_0.success
                    &&& r->Ok_0.capture_path == capture_path
                    &&& r->Ok_0.file_size_bytes == file_size_bytes
                    &&& r->Ok_0.file_size_mb == file_size_mb
                    &&& r->Ok_0.events.shows(contents)
                    &&& r->Ok_0.pixtool_output@ == cut(
                        output.public_stdout@,
                        MAX_INLINE_PROCESS_OUTPUT_BYTES as nat,
                    )
                } else {
                    r is Err && r->Err_0.message@
                        == "Analysis report exceeded its 1048576 byte inline budget; use pix_get_event_list with output_path for the full CSV"@
                },
            },
        },
{
    let parsed = match read_exported_events(
        output,
        file,
        csv_file,
        "capture analysis",
        "Failed to extract a valid event list",
    ) {
        Ok(parsed) => parsed,
        Err(e) => {
            return Err(e);
        },
    };
    let events = match analyze_events_summary(&parsed) {
        Ok(events) => events,
        Err(e) => {
            return Err(e);
        },
    };
    proof {
        preview_has_its_json(events, parsed@);
    }
    let report = analyze_report(
        capture_path,
        file_size_bytes,
        file_size_mb,
        events,
        &output.public_stdout,
    );
    proof {
        assert(report.members() =~= seq![
            member("success"@, json_bool(true)),
            member("capture_path"@, quoted(capture_path@)),
            member("file_size_bytes"@, decimal(file_size_bytes as nat)),
            member("file_size_mb"@, quoted(file_size_mb@)),
            member("events"@, summary_json(parsed@)),
            member(
                "pixtool_output"@,
                quoted(cut(output.public_stdout@, MAX_INLINE_PROCESS_OUTPUT_BYTES as nat)),
            ),
        ]);
    }
    accept_analyze_report(report)
}

/// The summary of a frame, given what came of exporting its event list to `csv_file` and of
/// reading it.
pub fn answer_frame(
    capture_path: &str,
    output: &CommandOutput,
    file: Result<Vec<u8>, Failure>,
    csv_file: &str,
) -> (r: Result<FrameInsights, Failure>)
    ensures
        match exported_events(
            *output,
            file,
            csv_file@,
            "frame analysis"@,
            "pixtool did not produce a valid event list"@,
        ) {
            Err(problem) => r is Err && r->Err_0.message@ == problem,
            Ok(contents) => match summary_of(capture_path@, contents).fitted() {
                Some(expected) => r is Ok && r->Ok_0@ == expected,
                None => r is Err && r->Err_0.message@
                    == "Frame-insights report exceeded its 1048576 byte inline budget"@,
            },
        },
{
    match read_exported_events(
        output,
        file,
        csv_file,
        "frame analysis",
        "pixtool did not produce a valid event list",
    ) {
        Ok(parsed) => frame_insights_from_csv(capture_path, &parsed),
        Err(e) => Err(e),
    }
}

/// The event list that was exported for a comparison, given what came of reading it. What the
/// command printed comes first.
pub fn accept_comparison_export(
    output: &CommandOutput,
    parsed: Result<ComparisonCsv, Failure>,
) -> (r: Result<ComparisonCsv, Failure>)
    ensures
        match artifact_problem(*output, "capture comparison"@) {
            Some(problem) => r is Err && r->Err_0.message@ == problem,
            None => r == parsed,
        },
{
    match accept_command(output, "capture comparison") {
        Ok(_) => parsed,
        Err(e) => Err(e),
    }
}

// ---------------------------------------------------------------------------
// Event lists
// ---------------------------------------------------------------------------

/// A request for an event list that may be carried out.
#[derive(Debug)]
pub struct EventListPlan {
    limit: usize,
    offset: usize,
    output_path: Option<String>,
    counters: Option<String>,
}

/// How many rows a page has at most, where the request is accepted.
pub open spec fn page_limit(limit: Option<usize>, format: Option<ResponseFormat>) -> nat {
    let wanted = match limit {
        Some(n) => n,
        None => match format {
            Some(format) => format.page_size(),
            None => ResponseFormat::Summary.page_size(),
        },
    };
    if wanted < EVENT_LIST_MAX_LIMIT {
        wanted as nat
    } else {
        EVENT_LIST_MAX_LIMIT as nat
    }
}

impl EventListPlan {
    pub closed spec fn row_limit(&self) -> nat {
        self.limit as nat
    }

    pub closed spec fn first_row(&self) -> nat {
        self.offset as nat
    }

    /// Where the full list is saved, if anywhere.
    pub closed spec fn destination(&self) -> Option<Seq<char>> {
        optional_text(self.output_path)
    }

    /// Which counters are collected, if any.
    pub closed spec fn pattern(&self) -> Option<Seq<char>> {
        optional_text(self.counters)
    }

    /// Accepts a request. Nothing has been run or written yet.
    pub fn new(args: &EventListArgs) -> (r: Result<EventListPlan, Failure>)
        ensures
            args.limit == Some(0usize) ==> r is Err && r->Err_0.message@
                == "limit must be at least 1 (maximum 2000)"@,
            args.limit != Some(0usize) && args.output_path is Some && is_blank(args.output_path->0@)
                ==> r is Err && r->Err_0.message@ == "output_path must not be empty"@,
            args.limit != Some(0usize) && args.output_path is None && args.counters is Some
                && is_blank(args.counters->0@) ==> r is Err && r->Err_0.message@
                == "counters must not be empty"@,
            args.limit != Some(0usize) && args.output_path is Some && !is_blank(
                args.output_path->0@,
            ) && is_settled(args.output_path->0@) && !optional_has_extension(
                named_file(args.output_path->0@),
                "csv"@,
            ) ==> r is Err && r->Err_0.message@ == not_csv_text(),
            args.limit != Some(0usize) && args.output_path is Some && !is_blank(
                args.output_path->0@,
            ) && is_settled(args.output_path->0@) && optional_has_extension(
                named_file(args.output_path->0@),
                "csv"@,
            ) && args.counters is Some && is_blank(args.counters->0@) ==> r is Err
                && r->Err_0.message@ == "counters must not be empty"@,
            args.counters is Some && is_blank(args.counters->0@) ==> r is Err,
            args.limit != Some(0usize) && (args.output_path is None || (is_settled(
                args.output_path->0@,
            ) && !is_blank(args.output_path->0@) && optional_has_extension(
                named_file(args.output_path->0@),
                "csv"@,
            ))) && !(args.counters is Some && is_blank(args.counters->0@)) ==> r is Ok,
            r matches Ok(plan) ==> {
                &&& plan.row_limit() == page_limit(args.limit, args.response_format)
                &&& plan.row_limit() > 0
                &&& plan.first_row() == match args.offset {
                    Some(n) => n as nat,
                    None => 0,
                }
                &&& plan.destination() == optional_text(args.output_path)
                &&& plan.pattern() == optional_text(args.counters)
                &&& plan.destination() is Some && is_settled(plan.destination()->0)
                    ==> optional_has_extension(named_file(plan.destination()->0), "csv"@)
            },
    {
        let format = match args.response_format {
            Some(format) => format,
            None => ResponseFormat::Summary,
        };
        let limit: usize = event_list_limit(args.limit, format)?;
        let raw: Option<&str> = match &args.output_path {
            Some(text) => Some(text.as_str()),
            None => None,
        };
        let output_path = event_output_path(raw)?;
        let counters = event_list_counters(args)?;
        let offset: usize = match args.offset {
            Some(n) => n,
            None => 0,
        };
        Ok(EventListPlan { limit, offset, output_path, counters })
    }

    /// Where the full list is saved, if anywhere.
    pub fn output_path(&self) -> (r: Option<String>)
        ensures
            optional_text(r) == self.destination(),
    {
        match &self.output_path {
            Some(text) => Some(text.clone()),
            None => None,
        }
    }

    /// The command that writes the list to the staging place `csv_file`.
    pub fn command(&self, capture_file: &str, csv_file: &str) -> (r: Result<Vec<Argument>, Failure>)
        ensures
            is_command(
                r,
                match self.pattern() {
                    Some(pattern) => if is_safe(pattern) {
                        None
                    } else {
                        Some(unsafe_text("--counters"@))
                    },
                    None => None,
                },
                seq![
                    Arg::Plain("open-capture"@),
                    Arg::Plain(capture_file@),
                    Arg::Plain("save-event-list"@),
                    Arg::Plain(csv_file@),
                ] + (match self.pattern() {
                    Some(pattern) => seq![Arg::Valued("--counters"@, pattern)],
                    None => seq![],
                }),
            ),
    {
        PixTool::save_event_list(capture_file, csv_file, &self.counters)
    }

    /// Accepts the file that the command left, given what came of checking it. Only what is
    /// accepted may be put where it was to go.
    pub fn accept_file(
        self,
        output: &CommandOutput,
        checked: Result<EventCsvSummary, Failure>,
    ) -> (r: Result<StagedEventList, Failure>)
        ensures
            match artifact_problem(*output, "event-list export"@) {
                Some(problem) => r is Err && r->Err_0.message@ == problem,
                None => match checked {
                    Err(e) => r is Err && r->Err_0.message@ == with_streams(
                        "Failed to generate a valid event list"@ + ": "@ + e.message@,
                        *output,
                    ),
                    Ok(summary) => r is Ok && r->Ok_0.contents() == summary,
                },
            },
            r is Ok ==> artifact_problem(*output, "event-list export"@) is None && checked is Ok,
    {
        accept_command(output, "event-list export")?;
        match checked {
            Ok(summary) => Ok(StagedEventList { summary }),
            Err(e) => Err(
                unusable_artifact("Failed to generate a valid event list", &e, output),
            ),
        }
    }

    /// The answer with one page of the list that the command left at `csv_file`. `file` is what
    /// came of reading it.
    pub fn answer_inline(
        self,
        output: &CommandOutput,
        file: Result<Vec<u8>, Failure>,
        csv_file: &str,
    ) -> (r: Result<EventListReport, Failure>)
        ensures
            match exported_events(
                *output,
                file,
                csv_file@,
                "event-list export"@,
                "Failed to generate a valid event list"@,
            ) {
                Err(problem) => r is Err && r->Err_0.message@ == problem,
                Ok(contents) => match page_of(contents, self.first_row(), self.row_limit()) {
                    Err(problem) => r is Err && r->Err_0.message@ == problem,
                    Ok(page) => r is Ok && answers_with(r->Ok_0, page),
                },
            },
    {
        let parsed = match read_exported_events(
            output,
            file,
            csv_file,
            "event-list export",
            "Failed to generate a valid event list",
        ) {
            Ok(parsed) => parsed,
            Err(e) => {
                return Err(e);
            },
        };
        let page = match event_page(&parsed, self.offset, self.limit) {
            Ok(page) => page,
            Err(e) => {
                return Err(e);
            },
        };
        proof {
            page_rows_are_contiguous(parsed@, self.offset as nat, self.limit as nat);
            assert(texts(page.rows@).len() == page.rows.len());
            assert(crate::events::written_rows(parsed@.records).len() == parsed@.records.len());
        }
        Ok(page_report(page))
    }
}

/// Whether an answer returns the page inline.
pub open spec fn answers_with(report: EventListReport, page: Page) -> bool {
    let end = page.offset + page.rows.len();
    let more = end < page.total_events;
    &&& report.success
    &&& report.output_path is None
    &&& report.total_events == page.total_events
    &&& report.offset is Some && report.offset->0 == page.offset
    &&& report.returned is Some && report.returned->0 == page.rows.len()
    &&& optional_text(report.header) == Some(page.header)
    &&& report.rows is Some && texts(report.rows->0@) == page.rows
    &&& report.truncated == Some(more)
    &&& match report.next_offset {
        Some(next) => more && next == end,
        None => !more,
    }
    &&& optional_text(report.message) == if more {
        Some(crate::events::page_message(page))
    } else {
        None
    }
}

/// An event list that was written to a staging place and found to be one.
#[derive(Debug)]
pub struct StagedEventList {
    summary: EventCsvSummary,
}

impl StagedEventList {
    pub closed spec fn contents(&self) -> EventCsvSummary {
        self.summary
    }

    /// The answer, once the list is at `output_path`.
    pub fn answer(self, output_path: String) -> (r: EventListReport)
        ensures
            r.success,
            optional_text(r.output_path) == Some(output_path@),
            r.total_events == self.contents().total_events,
            r.offset is None && r.returned is None && r.truncated is None && r.next_offset is None
                && r.rows is None,
            optional_text(r.header) == if quoted_len(self.contents().header@) + 1024
                <= MAX_INLINE_EVENT_PAYLOAD_BYTES {
                Some(self.contents().header@)
            } else {
                None
            },
            optional_text(r.message) == Some(
                if r.header is Some {
                    "Full event list saved to CSV"@
                } else {
                    "Full event list saved to CSV; oversized header omitted from the inline report"@
                },
            ),
    {
        saved_event_list_report(self.summary, output_path)
    }
}

// ---------------------------------------------------------------------------
// Launches
// ---------------------------------------------------------------------------

/// A launch whose arguments can be passed on unchanged. There is no other way to the commands
/// that launch an application.
#[derive(Debug)]
pub struct LaunchPlan {
    exe_path: String,
    working_dir: Option<String>,
    command_line: Option<String>,
}

impl LaunchPlan {
    pub closed spec fn executable(&self) -> Seq<char> {
        self.exe_path@
    }

    pub closed spec fn directory(&self) -> Option<Seq<char>> {
        optional_text(self.working_dir)
    }

    /// What the application is launched with, if anything.
    pub closed spec fn argument(&self) -> Option<Seq<char>> {
        optional_text(self.command_line)
    }

    /// What is passed on can be passed on.
    #[verifier::type_invariant]
    spec fn is_sound(&self) -> bool {
        launch_options_problem(self.argument(), self.directory()) is None
    }

    /// Accepts an executable, its arguments and its working directory.
    pub fn new(exe_path: String, args: &[&str], working_dir: Option<String>) -> (r: Result<
        LaunchPlan,
        Failure,
    >)
        ensures
            match working_dir {
                Some(directory) => !is_safe(directory@) ==> r is Err && r->Err_0.message@
                    == unsafe_text("Working directory"@),
                None => true,
            },
            working_dir is None || is_safe(working_dir->0@) ==> match command_line(
                str_texts(args@),
            ) {
                Err(message) => r is Err && r->Err_0.message@ == message,
                Ok(text) => r is Ok && r->Ok_0.executable() == exe_path@ && r->Ok_0.directory()
                    == optional_text(working_dir) && r->Ok_0.argument() == text,
            },
    {
        if let Some(directory) = &working_dir {
            validate_raw_value("Working directory", directory)?;
        }
        let line = match validate_command_line_args(args) {
            Ok(line) => line,
            Err(e) => {
                return Err(e);
            },
        };
        proof {
            lemma_accepted_line_is_safe(str_texts(args@));
        }
        Ok(LaunchPlan { exe_path, working_dir, command_line: line })
    }

    /// Launches the application.
    pub fn launch(&self) -> (r: Vec<Argument>)
        ensures
            arguments(r@) == seq![Arg::Plain("launch"@), Arg::Plain(self.executable())]
                + launch_options(self.argument(), self.directory()),
    {
        proof {
            use_type_invariant(self);
        }
        match PixTool::launch(&self.exe_path, &self.command_line, &self.working_dir) {
            Ok(list) => list,
            Err(_) => {
                assert(false);
                Vec::new()
            },
        }
    }

    /// Launches the application and captures its first frame, to `capture_file` or into PIX.
    pub fn launch_and_capture(&self, capture_file: &Option<String>) -> (r: Vec<Argument>)
        ensures
            arguments(r@) == seq![
                Arg::Plain("launch"@),
                Arg::Plain(self.executable()),
                Arg::Plain("--captureFromStart"@),
            ] + launch_options(self.argument(), self.directory()) + seq![
                Arg::Plain("take-capture"@),
                Arg::Plain("--frames=1"@),
            ] + (match capture_file {
                Some(path) => seq![Arg::Plain("save-capture"@), Arg::Plain(path@)],
                None => seq![Arg::Plain("--open"@)],
            }),
    {
        proof {
            use_type_invariant(self);
        }
        match PixTool::launch_and_capture(
            &self.exe_path,
            &self.command_line,
            &self.working_dir,
            capture_file,
        ) {
            Ok(list) => list,
            Err(_) => {
                assert(false);
                Vec::new()
            },
        }
    }

    /// Launches the application, captures `frames` frames, or one, and saves them.
    pub fn gpu_capture(&self, frames: Option<u32>, output_path: &str) -> (r: Result<
        Vec<Argument>,
        Failure,
    >)
        ensures
            ({
                let wanted = match frames {
                    Some(n) => n,
                    None => 1,
                };
                if 1 <= wanted <= 120 {
                    r is Ok && arguments(r->Ok_0@) == seq![
                        Arg::Plain("launch"@),
                        Arg::Plain(self.executable()),
                    ] + launch_options(self.argument(), self.directory()) + seq![
                        Arg::Plain("take-capture"@),
                        Arg::Plain("--frames="@ + decimal(wanted as nat)),
                        Arg::Plain("save-capture"@),
                        Arg::Plain(output_path@),
                    ]
                } else {
                    r is Err && r->Err_0.message@ == "frames must be between 1 and 120"@
                }
            }),
    {
        proof {
            use_type_invariant(self);
        }
        match validate_frames(frames) {
            Ok(frames) => PixTool::gpu_capture_launch(
                &self.exe_path,
                &self.command_line,
                &self.working_dir,
                frames,
                output_path,
            ),
            Err(e) => Err(e),
        }
    }
}

/// A command line that is accepted can be passed between quotation marks.
proof fn lemma_accepted_line_is_safe(args: Seq<Seq<char>>)
    ensures
        command_line(args) matches Ok(Some(text)) ==> is_safe(text),
{
    if let Ok(Some(text)) = command_line(args) {
        only_one_application_argument_is_passed(args);
        assert(args.drop_last() =~= seq![]);
        assert(args.last() == args[0]);
        assert(crate::pixtool::arguments_problem(args) is None);
        assert(crate::pixtool::arguments_problem(args.drop_last()) is None);
        assert(crate::pixtool::argument_problem(args.last()) is None);
    }
}

// ---------------------------------------------------------------------------
// Captures
// ---------------------------------------------------------------------------

/// How a capture is taken.
#[derive(Debug, Clone, Copy, PartialEq, Eq, Structural)]
pub enum CaptureKind {
    /// From the start of an application that is launched for it.
    Startup,
    /// Of a process that runs already.
    Attached { process_id: u32 },
    /// Of an application that is launched for it.
    Launched,
    /// A timing capture of a process that runs already.
    Timing,
}

/// What is wrong with the command that takes a capture, if anything.
pub open spec fn capture_run_problem(kind: CaptureKind, output: CommandOutput) -> Option<
    Seq<char>,
> {
    let stdout = output.public_stdout@;
    let stderr = output.public_stderr@;
    if output.success {
        None
    } else {
        Some(
            match kind {
                CaptureKind::Startup => failed_text(
                    "pixtool launch-and-capture"@,
                    stdout,
                    stderr,
                ),
                CaptureKind::Attached { process_id } => gpu_capture_failure(
                    process_id as nat,
                    output.stdout@,
                    output.stderr@,
                    stdout,
                    stderr,
                ),
                CaptureKind::Launched => gpu_capture_launch_failure(
                    output.stdout@,
                    output.stderr@,
                    stdout,
                    stderr,
                ),
                CaptureKind::Timing => failed_text("pixtool timing-capture"@, stdout, stderr),
            },
        )
    }
}

/// Accepts a capture that was taken to the staging place `staged`, given what is found there.
/// Only what is accepted may be put where it was to go.
pub fn accept_capture(
    kind: CaptureKind,
    output: &CommandOutput,
    staged: &str,
    probe: &SavedProbe,
) -> (r: Result<(), Failure>)
    ensures
        match capture_run_problem(kind, *output) {
            Some(problem) => r is Err && r->Err_0.message@ == problem,
            None => match saved_problem(staged@, *probe) {
                Some(problem) => r is Err && r->Err_0.message@ == problem,
                None => r is Ok,
            },
        },
{
    if !output.success {
        return Err(
            match kind {
                CaptureKind::Startup => command_failed(
                    "pixtool launch-and-capture",
                    &output.public_stdout,
                    &output.public_stderr,
                ),
                CaptureKind::Attached { process_id } => gpu_capture_failed(
                    process_id,
                    &output.stdout,
                    &output.stderr,
                    &output.public_stdout,
                    &output.public_stderr,
                ),
                CaptureKind::Launched => gpu_capture_launch_failed(
                    &output.stdout,
                    &output.stderr,
                    &output.public_stdout,
                    &output.public_stderr,
                ),
                CaptureKind::Timing => command_failed(
                    "pixtool timing-capture",
                    &output.public_stdout,
                    &output.public_stderr,
                ),
            },
        );
    }
    verify_new_capture_output(staged, probe)
}

/// A capture is accepted only where the command succeeded and left a file that holds something.
pub proof fn accepted_captures_hold_something(
    kind: CaptureKind,
    output: CommandOutput,
    staged: Seq<char>,
    probe: SavedProbe,
)
    requires
        capture_run_problem(kind, output) is None,
        saved_problem(staged, probe) is None,
    ensures
        output.success,
        probe matches SavedProbe::Found { is_file, size_bytes } && is_file && size_bytes > 0,
{
}

} // verus!
