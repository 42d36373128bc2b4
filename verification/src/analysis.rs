//! Counters and debug-layer playback of a capture.

use crate::budget::{keep_within, kept, some_kept_is_cut};
use crate::diagnostics::{
    accepted_status, all_lines, asks_for_developer_mode, bounded_diagnostic_lines,
    check_developer_mode, combined_output, combined_process_output, developer_mode_guidance,
    exit_code_text, first_error, first_error_line, incomplete_text, indicates_failure,
    is_accepted_status, is_incomplete, line_indicates_command_failure, note_prefix,
    reject_incomplete_process_output, validate_artifact_command_output, MAX_COUNTER_NAME_BYTES,
    MAX_INLINE_DIAGNOSTICS_JSON_BYTES,
};
use crate::events::{least, EventsPreview};
use crate::failure::Failure;
use crate::paths::{
    has_extension_ignore_ascii_case, is_settled, named_file, optional_has_extension,
};
use crate::text::{
    blank, chars_have_part, chars_of, concat3, found_at, has_part, is_blank, lemma_texts_push,
    lines, lower_ascii, optional_text, same_chars, split_lines, starts_with, starts_with_text,
    texts, to_lower_ascii, trim, trimmed, unicode_lower,
};
use crate::utf8::{cut, is_cut, truncate_utf8};
use vstd::prelude::*;
use vstd::string::*;

verus! {

pub const COUNTERS_MAX_LIMIT: usize = 2000;

pub const COUNTERS_DEFAULT_LIMIT: usize = 200;

pub const MAX_INLINE_COUNTERS_JSON_BYTES: usize = 786_432;

pub const MAX_INLINE_PROCESS_OUTPUT_BYTES: usize = 32_768;

/// How a command ended and what it printed.
#[derive(Debug)]
pub struct CommandOutput {
    pub success: bool,
    pub exit_code: Option<i32>,
    /// The status as it is shown.
    pub status: String,
    pub stdout: String,
    pub stderr: String,
    /// The streams as they may be shown.
    pub public_stdout: String,
    pub public_stderr: String,
}

/// Both streams, as they may be shown, behind `text`.
pub open spec fn with_streams(text: Seq<char>, output: CommandOutput) -> Seq<char> {
    text + "\nstdout: "@ + output.public_stdout@ + "\nstderr: "@ + output.public_stderr@
}

fn add_streams(text: String, output: &CommandOutput) -> (r: String)
    ensures
        r@ == with_streams(text@, *output),
{
    let mut r = text;
    r.append("\nstdout: ");
    r.append(&output.public_stdout);
    r.append("\nstderr: ");
    r.append(&output.public_stderr);
    r
}

/// What is said of a command whose artifact is not trusted, if it is not.
pub open spec fn artifact_problem(output: CommandOutput, operation: Seq<char>) -> Option<Seq<char>> {
    let stdout = output.stdout@;
    let stderr = output.stderr@;
    let all = all_lines(stdout, stderr);
    let shown = combined_output(output.public_stdout@, output.public_stderr@);
    if is_incomplete(stdout, stderr) {
        Some(incomplete_text(operation))
    } else if asks_for_developer_mode(unicode_lower(stdout + "\n"@ + stderr)) {
        Some(developer_mode_guidance())
    } else if first_error(all) < all.len() {
        Some(
            "pixtool "@ + operation + " reported a failure ("@ + all[first_error(all)] + ").\n"@
                + shown,
        )
    } else if !is_accepted_status(output.success, output.exit_code) {
        Some(
            "pixtool "@ + operation + " failed with exit code "@ + exit_code_text(output.exit_code)
                + ".\n"@ + shown,
        )
    } else {
        None
    }
}

/// Accepts the end of a command that wrote an artifact.
pub fn accept_command(output: &CommandOutput, operation: &str) -> (r: Result<(), Failure>)
    ensures
        match artifact_problem(*output, operation@) {
            None => r is Ok,
            Some(problem) => r is Err && r->Err_0.message@ == problem,
        },
{
    match validate_artifact_command_output(
        output.success,
        output.exit_code,
        &output.stdout,
        &output.stderr,
        operation,
    ) {
        Ok(_) => Ok(()),
        Err(problem) => Err(
            Failure::new(
                problem.message(operation, &output.public_stdout, &output.public_stderr),
            ),
        ),
    }
}

/// A command whose output was cut, or whose stream could not be read to its end, is never
/// trusted, whatever else it printed.
pub proof fn incomplete_output_is_never_trusted(output: CommandOutput, operation: Seq<char>)
    requires
        is_incomplete(output.stdout@, output.stderr@),
    ensures
        artifact_problem(output, operation) is Some,
        playback_problem(output) is Some,
        counter_listing_problem(output) is Some,
{
}

// ---------------------------------------------------------------------------
// Capture files
// ---------------------------------------------------------------------------

/// A request that names a capture and nothing else.
#[derive(Debug)]
pub struct CapturePathArgs {
    pub capture_path: String,
}

pub open spec fn capture_not_found_text(path: Seq<char>) -> Seq<char> {
    "Capture file not found: "@ + path
        + ". Provide a valid .wpix path; use pix_list_captures to find captures."@
}

/// The refusal of a capture that does not exist, with advice.
pub fn capture_not_found(path: &str) -> (r: Failure)
    ensures
        r.message@ == capture_not_found_text(path@),
{
    Failure::new(
        concat3(
            "Capture file not found: ",
            path,
            ". Provide a valid .wpix path; use pix_list_captures to find captures.",
        ),
    )
}

/// Refuses a request that names no capture.
pub fn require_capture_path(raw_path: &str) -> (r: Result<(), Failure>)
    ensures
        r is Err == is_blank(raw_path@),
        r matches Err(e) ==> e.message@ == "capture_path must not be empty"@,
{
    if blank(raw_path) {
        return Err(Failure::of("capture_path must not be empty"));
    }
    Ok(())
}

/// Accepts the file that a request names: it must hold something and be a `.wpix` file.
/// `raw_path` is what the request names, `path` what that was resolved to.
pub fn accept_capture_file(raw_path: &str, path: &str, size_bytes: u64) -> (r: Result<(), Failure>)
    ensures
        size_bytes == 0 ==> r is Err && r->Err_0.message@ == "Capture file is empty: "@ + raw_path@,
        size_bytes > 0 ==> (r matches Err(e) ==> e.message@
            == "Capture path must reference a .wpix file: "@ + raw_path@),
        size_bytes > 0 && is_settled(path@) ==> r is Ok == optional_has_extension(
            named_file(path@),
            "wpix"@,
        ),
{
    if size_bytes == 0 {
        let mut message = "Capture file is empty: ".to_string();
        message.append(raw_path);
        return Err(Failure::new(message));
    }
    if !has_extension_ignore_ascii_case(path, "wpix") {
        let mut message = "Capture path must reference a .wpix file: ".to_string();
        message.append(raw_path);
        return Err(Failure::new(message));
    }
    Ok(())
}

// ---------------------------------------------------------------------------
// The preview of a capture
// ---------------------------------------------------------------------------

/// What a request for a preview of a capture is answered.
#[derive(Debug)]
pub struct AnalyzeReport {
    pub success: bool,
    pub capture_path: String,
    pub file_size_bytes: u64,
    pub file_size_mb: String,
    pub events: EventsPreview,
    pub pixtool_output: String,
}

/// Puts the preview of a capture together. `file_size_mb` is the size in MiB, and
/// `public_stdout` what the command printed, as it may be shown.
pub fn analyze_report(
    capture_path: String,
    file_size_bytes: u64,
    file_size_mb: String,
    events: EventsPreview,
    public_stdout: &str,
) -> (r: AnalyzeReport)
    ensures
        r.success,
        r.capture_path == capture_path,
        r.file_size_bytes == file_size_bytes,
        r.file_size_mb == file_size_mb,
        r.events == events,
        r.pixtool_output@ == cut(public_stdout@, MAX_INLINE_PROCESS_OUTPUT_BYTES as nat),
{
    let (pixtool_output, _) = truncate_utf8(public_stdout, MAX_INLINE_PROCESS_OUTPUT_BYTES);
    AnalyzeReport {
        success: true,
        capture_path,
        file_size_bytes,
        file_size_mb,
        events,
        pixtool_output,
    }
}

// ---------------------------------------------------------------------------
// Counters
// ---------------------------------------------------------------------------

/// A request for the counters that a capture offers.
#[derive(Debug)]
pub struct ListCountersArgs {
    pub capture_path: String,
    /// What the names must contain, in any case.
    pub filter: Option<String>,
    pub limit: Option<usize>,
}

/// What a request for counters is answered.
#[derive(Debug)]
pub struct CountersReport {
    pub success: bool,
    pub capture_path: String,
    /// How many counters there are, whether they match or not.
    pub total_count: usize,
    pub returned: usize,
    /// Whether counters that match were left out, or names cut.
    pub truncated: bool,
    pub counters: Vec<String>,
}

/// Whether a line of the command's output is the name of a counter.
pub open spec fn is_counter_line(line: Seq<char>) -> bool {
    let text = trimmed(line);
    let lower = lower_ascii(text);
    &&& text.len() > 0
    &&& !starts_with(lower, "launching"@)
    &&& !starts_with(lower, "connecting"@)
    &&& !starts_with(lower, "usage:"@)
    &&& !starts_with(lower, "pixtool "@)
    &&& !starts_with(text, note_prefix())
    &&& lower != "available counters:"@
    &&& lower != "counters:"@
    &&& !indicates_failure(text)
}

pub fn is_counter_output_line(line: &str) -> (r: bool)
    ensures
        r == is_counter_line(line@),
{
    let text = trim(line);
    if text.as_str().is_empty() {
        return false;
    }
    let lower = to_lower_ascii(&chars_of(&text));
    !found_at(&lower, &chars_of("launching"), 0) && !found_at(&lower, &chars_of("connecting"), 0)
        && !found_at(&lower, &chars_of("usage:"), 0) && !found_at(&lower, &chars_of("pixtool "), 0)
        && !starts_with_text(&text, "[pix-mcp:") && !same_chars(
        &lower,
        &chars_of("available counters:"),
    ) && !same_chars(&lower, &chars_of("counters:")) && !line_indicates_command_failure(&text)
}

/// The names of the counters among `all` lines.
pub open spec fn counter_names(all: Seq<Seq<char>>) -> Seq<Seq<char>>
    decreases all.len(),
{
    if all.len() == 0 {
        seq![]
    } else if is_counter_line(all.last()) {
        counter_names(all.drop_last()).push(trimmed(all.last()))
    } else {
        counter_names(all.drop_last())
    }
}

/// The names that contain `filter`, in any case; all of them without a filter.
pub open spec fn matching(names: Seq<Seq<char>>, filter: Option<Seq<char>>) -> Seq<Seq<char>>
    decreases names.len(),
{
    if names.len() == 0 {
        seq![]
    } else {
        let before = matching(names.drop_last(), filter);
        if filter is None || has_part(unicode_lower(names.last()), unicode_lower(filter->0)) {
            before.push(names.last())
        } else {
            before
        }
    }
}

fn list_counter_names(stdout: &str) -> (r: Vec<String>)
    ensures
        texts(r@) == counter_names(lines(stdout@)),
{
    broadcast use lemma_texts_push;

    let all = split_lines(stdout);
    let ghost model = lines(stdout@);
    let mut r: Vec<String> = Vec::new();
    let mut i: usize = 0;
    assert(texts(r@) =~= counter_names(model.take(0)));
    while i < all.len()
        invariant
            i <= all.len(),
            texts(all@) == model,
            texts(r@) == counter_names(model.take(i as int)),
        decreases all.len() - i,
    {
        proof {
            assert(model.take(i + 1).drop_last() =~= model.take(i as int));
            assert(model.take(i + 1).last() == all@[i as int]@);
        }
        if is_counter_output_line(&all[i]) {
            r.push(trim(&all[i]));
        }
        i += 1;
    }
    assert(model.take(i as int) =~= model);
    r
}

fn filter_names(names: &Vec<String>, filter: &Option<String>) -> (r: Vec<String>)
    ensures
        texts(r@) == matching(texts(names@), optional_text(*filter)),
{
    broadcast use lemma_texts_push;

    let ghost model = texts(names@);
    let ghost wanted = optional_text(*filter);
    let needle: Option<Vec<char>> = match filter {
        Some(text) => Some(chars_of(&text.to_lowercase())),
        None => None,
    };
    let mut r: Vec<String> = Vec::new();
    let mut i: usize = 0;
    assert(texts(r@) =~= matching(model.take(0), wanted));
    while i < names.len()
        invariant
            i <= names.len(),
            model == texts(names@),
            needle is Some == wanted is Some,
            needle matches Some(text) ==> text@ == unicode_lower(wanted->0),
            texts(r@) == matching(model.take(i as int), wanted),
        decreases names.len() - i,
    {
        proof {
            assert(model.take(i + 1).drop_last() =~= model.take(i as int));
            assert(model.take(i + 1).last() == names@[i as int]@);
        }
        let wanted_here = match &needle {
            Some(text) => chars_have_part(&chars_of(&names[i].to_lowercase()), text),
            None => true,
        };
        if wanted_here {
            r.push(names[i].clone());
        }
        i += 1;
    }
    assert(model.take(i as int) =~= model);
    r
}

/// Refuses a request for no counters.
pub fn check_counter_limit(limit: Option<usize>) -> (r: Result<(), Failure>)
    ensures
        r is Err == (limit == Some(0usize)),
        r matches Err(e) ==> e.message@ == "limit must be at least 1"@,
{
    if let Some(n) = limit {
        if n == 0 {
            return Err(Failure::of("limit must be at least 1"));
        }
    }
    Ok(())
}

/// How many counters are returned at most.
pub open spec fn counter_limit(limit: Option<usize>) -> nat {
    least(
        match limit {
            Some(n) => n as nat,
            None => COUNTERS_DEFAULT_LIMIT as nat,
        },
        COUNTERS_MAX_LIMIT as nat,
    )
}

/// What is wrong with the output of the command that lists counters, if anything.
pub open spec fn counter_listing_problem(output: CommandOutput) -> Option<Seq<char>> {
    let stdout = output.stdout@;
    let stderr = output.stderr@;
    let all = all_lines(stdout, stderr);
    if is_incomplete(stdout, stderr) {
        Some(incomplete_text("counter listing"@))
    } else if asks_for_developer_mode(unicode_lower(stdout + "\n"@ + stderr)) {
        Some(developer_mode_guidance())
    } else if !is_accepted_status(output.success, output.exit_code) {
        Some(
            with_streams(
                "pixtool failed to list counters with status "@ + output.status@ + "."@,
                output,
            ),
        )
    } else if first_error(all) < all.len() {
        Some(with_streams("pixtool failed to list counters."@, output))
    } else if counter_names(lines(stdout)).len() == 0 {
        Some(
            with_streams(
                "pixtool returned no counters (status: "@ + output.status@ + ")."@,
                output,
            ),
        )
    } else {
        None
    }
}

/// The counters that may be returned.
pub open spec fn wanted_counters(
    stdout: Seq<char>,
    filter: Option<Seq<char>>,
    limit: Option<usize>,
) -> Seq<Seq<char>> {
    let found = matching(counter_names(lines(stdout)), filter);
    found.take(least(found.len(), counter_limit(limit)) as int)
}

impl CountersReport {
    /// Whether this lists the counters in `stdout`.
    pub open spec fn lists(
        &self,
        capture_path: Seq<char>,
        stdout: Seq<char>,
        filter: Option<Seq<char>>,
        limit: Option<usize>,
    ) -> bool {
        let wanted = wanted_counters(stdout, filter, limit);
        &&& self.success
        &&& self.capture_path@ == capture_path
        &&& self.total_count == counter_names(lines(stdout)).len()
        &&& self.returned == self.counters.len()
        &&& texts(self.counters@) == kept(
            wanted,
            MAX_COUNTER_NAME_BYTES as nat,
            MAX_INLINE_COUNTERS_JSON_BYTES as nat,
        )
        &&& self.truncated == (self.counters.len() < matching(
            counter_names(lines(stdout)),
            filter,
        ).len() || some_kept_is_cut(
            wanted,
            MAX_COUNTER_NAME_BYTES as nat,
            MAX_INLINE_COUNTERS_JSON_BYTES as nat,
        ))
    }
}

/// The counters that the command listed.
pub fn counters_report(
    capture_path: String,
    filter: &Option<String>,
    limit: Option<usize>,
    output: &CommandOutput,
) -> (r: Result<CountersReport, Failure>)
    ensures
        match (r, counter_listing_problem(*output)) {
            (Ok(report), None) => report.lists(
                capture_path@,
                output.stdout@,
                optional_text(*filter),
                limit,
            ),
            (Err(e), Some(message)) => e.message@ == message,
            _ => false,
        },
{
    reject_incomplete_process_output(&output.stdout, &output.stderr, "counter listing")?;
    check_developer_mode(&output.stdout, &output.stderr)?;
    if !accepted_status(output.success, output.exit_code) {
        let text = concat3("pixtool failed to list counters with status ", &output.status, ".");
        return Err(Failure::new(add_streams(text, output)));
    }
    if first_error_line(&output.stdout, &output.stderr).is_some() {
        let text = "pixtool failed to list counters.".to_string();
        return Err(Failure::new(add_streams(text, output)));
    }
    let all = list_counter_names(&output.stdout);
    let total_count: usize = all.len();
    assert(texts(all@).len() == all.len());
    if total_count == 0 {
        let text = concat3("pixtool returned no counters (status: ", &output.status, ").");
        return Err(Failure::new(add_streams(text, output)));
    }
    let mut filtered = filter_names(&all, filter);
    let filtered_count: usize = filtered.len();
    let ghost found = texts(filtered@);
    assert(found.len() == filtered_count);
    let wanted: usize = match limit {
        Some(n) => n,
        None => COUNTERS_DEFAULT_LIMIT,
    };
    let limit_here: usize = if wanted < COUNTERS_MAX_LIMIT {
        wanted
    } else {
        COUNTERS_MAX_LIMIT
    };
    filtered.truncate(limit_here);
    assert(texts(filtered@) =~= wanted_counters(
        output.stdout@,
        optional_text(*filter),
        limit,
    ));
    let (counters, any_cut) = keep_within(
        &filtered,
        MAX_COUNTER_NAME_BYTES,
        MAX_INLINE_COUNTERS_JSON_BYTES,
    );
    let truncated = any_cut || counters.len() < filtered_count;
    Ok(
        CountersReport {
            success: true,
            capture_path,
            total_count,
            returned: counters.len(),
            truncated,
            counters,
        },
    )
}

// ---------------------------------------------------------------------------
// Debug-layer playback
// ---------------------------------------------------------------------------

/// What the playback printed that counts.
#[derive(Debug)]
pub struct AnalysisDetail {
    pub error_count: usize,
    pub warning_count: usize,
    pub errors: Vec<String>,
    pub warnings: Vec<String>,
}

/// What a request for debug-layer playback is answered.
#[derive(Debug)]
pub struct RunAnalysisReport {
    pub success: bool,
    pub capture_path: String,
    pub analysis: AnalysisDetail,
    pub process_exit_code: Option<i32>,
    pub note: String,
    pub full_output: String,
}

/// What is wrong with the output of the playback, if anything.
pub open spec fn playback_problem(output: CommandOutput) -> Option<Seq<char>> {
    let stdout = output.stdout@;
    let stderr = output.stderr@;
    if is_incomplete(stdout, stderr) {
        Some(incomplete_text("debug-layer playback"@))
    } else if asks_for_developer_mode(unicode_lower(stdout + "\n"@ + stderr)) {
        Some(developer_mode_guidance())
    } else if !is_accepted_status(output.success, output.exit_code) {
        Some(
            with_streams(
                "pixtool debug-layer playback failed with status "@ + output.status@ + "."@,
                output,
            ),
        )
    } else {
        None
    }
}

/// Accepts the output of a playback.
pub fn check_playback(output: &CommandOutput) -> (r: Result<(), Failure>)
    ensures
        match playback_problem(*output) {
            None => r is Ok,
            Some(message) => r is Err && r->Err_0.message@ == message,
        },
{
    reject_incomplete_process_output(&output.stdout, &output.stderr, "debug-layer playback")?;
    check_developer_mode(&output.stdout, &output.stderr)?;
    if !accepted_status(output.success, output.exit_code) {
        let text = concat3(
            "pixtool debug-layer playback failed with status ",
            &output.status,
            ".",
        );
        return Err(Failure::new(add_streams(text, output)));
    }
    Ok(())
}

/// Whether diagnostic lines were left out or cut.
pub open spec fn lines_are_cut(items: Seq<Seq<char>>) -> bool {
    kept(
        items,
        MAX_COUNTER_NAME_BYTES as nat,
        MAX_INLINE_DIAGNOSTICS_JSON_BYTES as nat,
    ).len() < items.len() || some_kept_is_cut(
        items,
        MAX_COUNTER_NAME_BYTES as nat,
        MAX_INLINE_DIAGNOSTICS_JSON_BYTES as nat,
    )
}

pub open spec fn playback_note() -> Seq<char> {
    "pixtool run-debug-layer validates capture playback but does not export D3D12 debug-layer messages; counts include only diagnostics printed by the command itself"@
}

/// The report on a playback. The errors and warnings, and the streams, are as they may be
/// shown.
pub fn run_analysis_report(
    capture_path: String,
    exit_code: Option<i32>,
    errors: &Vec<String>,
    warnings: &Vec<String>,
    public_stdout: &str,
    public_stderr: &str,
) -> (r: RunAnalysisReport)
    ensures
        r.success == (errors.len() == 0),
        r.capture_path == capture_path,
        r.analysis.error_count == errors.len(),
        r.analysis.warning_count == warnings.len(),
        texts(r.analysis.errors@) == kept(
            texts(errors@),
            MAX_COUNTER_NAME_BYTES as nat,
            MAX_INLINE_DIAGNOSTICS_JSON_BYTES as nat,
        ),
        texts(r.analysis.warnings@) == kept(
            texts(warnings@),
            MAX_COUNTER_NAME_BYTES as nat,
            MAX_INLINE_DIAGNOSTICS_JSON_BYTES as nat,
        ),
        r.process_exit_code == exit_code,
        r.full_output@ == cut(
            combined_output(public_stdout@, public_stderr@),
            MAX_INLINE_PROCESS_OUTPUT_BYTES as nat,
        ),
        r.note@ == playback_note() + (if lines_are_cut(texts(errors@)) || lines_are_cut(
            texts(warnings@),
        ) || is_cut(
            combined_output(public_stdout@, public_stderr@),
            MAX_INLINE_PROCESS_OUTPUT_BYTES as nat,
        ) {
            "; some diagnostic text was omitted to stay within the inline response budget"@
        } else {
            ""@
        }),
{
    let (error_count, error_lines, errors_cut) = bounded_diagnostic_lines(errors);
    let (warning_count, warning_lines, warnings_cut) = bounded_diagnostic_lines(warnings);
    assert(texts(error_lines@).len() == error_lines.len() && texts(errors@).len() == errors.len());
    assert(texts(warning_lines@).len() == warning_lines.len() && texts(warnings@).len()
        == warnings.len());
    let combined = combined_process_output(public_stdout, public_stderr);
    let (full_output, output_cut) = truncate_utf8(&combined, MAX_INLINE_PROCESS_OUTPUT_BYTES);
    let mut note =
        "pixtool run-debug-layer validates capture playback but does not export D3D12 debug-layer messages; counts include only diagnostics printed by the command itself".to_string();
    note.append(if errors_cut || warnings_cut || output_cut {
        "; some diagnostic text was omitted to stay within the inline response budget"
    } else {
        ""
    });
    RunAnalysisReport {
        success: error_count == 0,
        capture_path,
        analysis: AnalysisDetail {
            error_count,
            warning_count,
            errors: error_lines,
            warnings: warning_lines,
        },
        process_exit_code: exit_code,
        note,
        full_output,
    }
}

/// A failure to read what the command wrote, with both streams as they may be shown.
pub fn unusable_artifact(summary: &str, error: &Failure, output: &CommandOutput) -> (r: Failure)
    ensures
        r.message@ == with_streams(summary@ + ": "@ + error.message@, *output),
{
    Failure::new(add_streams(concat3(summary, ": ", &error.message), output))
}

} // verus!
