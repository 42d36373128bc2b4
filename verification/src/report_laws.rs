//! What holds of the way from what a command left behind to an answer.

use crate::analysis::{artifact_problem, with_streams, CommandOutput};
use crate::compare::{
    export_warnings, has_timing, reports_timing, timing_column, CaptureSide, CompareAnalysisMode,
    CompareReport, ComparisonDetail, ComparisonFigures, EventExports, EventStructureComparison,
    GpuTimingComparison, TimingAggregate, TimingSums,
};
use crate::compare_laws::durations_are_those_of_the_events;
use crate::completion::{
    is_prompt, is_prompt_step, kind_of, reference_problem, ArgumentKind, CompletionReference,
    CompletionStep,
};
use crate::counters::{
    cell_json, is_counter_json, is_counter_table, json_value, Cell, CounterData,
    ExportCountersReport,
};
use crate::diagnostics::exit_code_text;
use crate::events::{event_list_in, event_list_of};
use crate::exports::{export_problem, header_problem, is_export, row_problem};
use crate::failure::Failure;
use crate::finite::{is_finite, is_zero};
use crate::images::{is_other_format, png_rewritten, png_shape};
use crate::json::{json_array, json_list, json_object, member, quoted};
use crate::numbers::{decimal, signed_decimal};
use crate::path_laws::names_are_parted_at_their_last_dot;
use crate::paths::{last_name, lemma_single_name, names_file};
use crate::pixtool::{arguments, is_command, Arg, Argument};
use crate::plans::{exported_events, preview_problem};
use crate::prompts::{is_id_at, name_of_stem, resolved_name};
use crate::resources::{file_names, unique_match, CaptureFile, ResourceReadError};
use crate::screenshot::{embedded_png, screenshot_file_problem, screenshot_size};
use crate::sequences::{ComparisonCsv, ComparisonEvent};
use crate::status::{is_version, version_in};
use crate::table_laws::the_first_faulty_row_is_told;
use crate::tables::{
    csv_header, csv_rows, fields_len, is_table, missing_event_column, table_in, without_mark,
    ParsedCsv, Table,
};
use crate::text::{has_part, joined, lower_ascii, optional_text, texts, trimmed, utf8_len};
use crate::text_laws::{joining_puts_separators_between, parts_are_found_anywhere};
use crate::utf8::cut;
use crate::workflow::next_steps;
use vstd::prelude::*;
use vstd::string::*;

verus! {

// ---------------------------------------------------------------------------
// Event lists
// ---------------------------------------------------------------------------

/// A table is an event list exactly where it has the columns of one and at least one row; it is then
/// used as it is.
pub proof fn event_lists_are_used_as_they_are(contents: Table, path: Seq<char>)
    ensures
        event_list_of(contents, path) is Ok <==> missing_event_column(contents.headers) is None
            && contents.records.len() > 0,
        event_list_of(contents, path) matches Ok(list) ==> list == contents,
{
}

/// What a command exported is used exactly where nothing is wrong with the command, its file was
/// read, and the file is an event list. What is wrong with the command is told first.
pub proof fn exports_are_used_where_all_is_in_order(
    output: CommandOutput,
    file: Result<Vec<u8>, Failure>,
    path: Seq<char>,
    operation: Seq<char>,
    summary: Seq<char>,
)
    ensures
        ({
            let events = exported_events(output, file, path, operation, summary);
            &&& events is Ok <==> artifact_problem(output, operation) is None && file is Ok
                && event_list_in(file->Ok_0@, path) is Ok
            &&& artifact_problem(output, operation) matches Some(problem) ==> events == Err::<
                Table,
                Seq<char>,
            >(problem)
            &&& events matches Ok(list) ==> list.records.len() > 0 && missing_event_column(
                list.headers,
            ) is None && event_list_in(file->Ok_0@, path) == Ok::<Table, Seq<char>>(list)
            &&& artifact_problem(output, operation) is None && file is Err ==> events == Err::<
                Table,
                Seq<char>,
            >(with_streams(summary + ": "@ + file->Err_0.message@, output))
        }),
{
}

/// The event list in a file is its table behind the mark, of at most 250000 rows, where it is one.
pub proof fn event_lists_are_read_from_their_bytes(bytes: Seq<u8>, path: Seq<char>)
    ensures
        event_list_in(bytes, path) matches Ok(list) ==> {
            let rest = without_mark(bytes);
            &&& rest.len() > 0
            &&& csv_header(rest) == Some(list.headers)
            &&& list.records.len() == csv_rows(rest).len() <= 250_000
            &&& forall|i: int|
                0 <= i < list.records.len() ==> csv_rows(rest)[i] == Some(
                    #[trigger] list.records[i],
                )
        },
{
    let rest = without_mark(bytes);
    crate::tables::lemma_valid_prefix(csv_rows(rest));
}

/// What is read is what there is: a table where there is one, and the reason where there is none.
pub proof fn tables_are_read_or_refused(
    r: Result<ParsedCsv, Failure>,
    expected: Result<Table, Seq<char>>,
)
    requires
        is_table(r, expected),
    ensures
        r is Ok <==> expected is Ok,
        r matches Ok(parsed) ==> parsed@ == expected->Ok_0,
        r matches Err(e) ==> e.message@ == expected->Err_0,
{
}

/// An event list is previewed where its header is within 128 kibibytes and the preview within 512.
pub proof fn previews_are_bounded(contents: Table)
    ensures
        preview_problem(contents) is None <==> fields_len(contents.headers) <= 128 * 1024
            && utf8_len(crate::events::summary_json(contents)) <= 512 * 1024,
{
}

/// An exported list is compared exactly where its header has the columns of an event list and is
/// within its bounds, no row has a problem, and there is at least one row.
pub proof fn exports_are_compared_where_nothing_is_wrong(
    header: Option<Seq<Seq<char>>>,
    rows: Seq<Option<Seq<Seq<char>>>>,
    max_events: nat,
)
    ensures
        export_problem(header, rows, max_events) is None <==> {
            &&& header is Some
            &&& missing_event_column(header->0) is None
            &&& !crate::exports::header_exceeds(header->0)
            &&& rows.len() > 0
            &&& forall|i: int|
                0 <= i < rows.len() ==> row_problem(
                    header->0,
                    #[trigger] rows[i],
                    i as nat,
                    max_events,
                ) is None
        },
{
    if header_problem(header) is None {
        let names = header->0;
        let clean = forall|i: int|
            0 <= i < rows.len() ==> row_problem(names, #[trigger] rows[i], i as nat, max_events)
                is None;
        if clean {
            the_first_faulty_row_is_told(names, rows, 0, max_events, rows.len() as int);
        } else {
            let at = lemma_first_faulty(names, rows, 0, max_events);
            the_first_faulty_row_is_told(names, rows, 0, max_events, at);
        }
    }
}

proof fn lemma_first_faulty(
    headers: Seq<Seq<char>>,
    rows: Seq<Option<Seq<Seq<char>>>>,
    from: int,
    max_events: nat,
) -> (at: int)
    requires
        0 <= from <= rows.len(),
        forall|i: int|
            0 <= i < from ==> row_problem(headers, #[trigger] rows[i], i as nat, max_events) is None,
        !(forall|i: int|
            0 <= i < rows.len() ==> row_problem(headers, #[trigger] rows[i], i as nat, max_events)
                is None),
    ensures
        0 <= at < rows.len(),
        row_problem(headers, rows[at], at as nat, max_events) is Some,
        forall|i: int|
            0 <= i < at ==> row_problem(headers, #[trigger] rows[i], i as nat, max_events) is None,
    decreases rows.len() - from,
{
    if from < rows.len() && row_problem(headers, rows[from], from as nat, max_events) is Some {
        from
    } else {
        assert(from < rows.len());
        lemma_first_faulty(headers, rows, from + 1, max_events)
    }
}

/// What is kept of an exported list are its first events, up to the number that was asked for, and
/// the number of all of them.
pub proof fn exports_keep_their_first_events(
    csv: ComparisonCsv,
    headers: Seq<Seq<char>>,
    rows: Seq<Option<Seq<Seq<char>>>>,
    max_events: nat,
    i: int,
)
    requires
        csv.keeps(headers, rows, max_events),
    ensures
        csv.total_events == rows.len(),
        rows.len() <= max_events ==> csv.events.len() == rows.len(),
        rows.len() > max_events ==> csv.events.len() == max_events,
        0 <= i < csv.events.len() ==> csv.events@[i].identity@ == crate::exports::kind_in(
            headers,
            rows[i]->0,
        ) && csv.events@[i].gpu_duration == crate::exports::duration_in(headers, rows[i]->0),
        texts(csv.headers@) == headers,
        csv.is_partial() <==> rows.len() > max_events,
{
}

// ---------------------------------------------------------------------------
// Comparisons
// ---------------------------------------------------------------------------

/// The timing of a capture is the number of its durations with what was worked out of them, and
/// there is one where there is a duration and the sum is finite.
pub proof fn timings_count_the_durations(
    aggregate: TimingAggregate,
    events: Seq<ComparisonEvent>,
    sums: TimingSums,
)
    ensures
        has_timing(events, sums) <==> is_finite(sums.sum.bits) && events.filter(
            |event: ComparisonEvent| event.gpu_duration is Some,
        ).len() > 0,
        aggregate.aggregates(events, sums) <==> aggregate.samples == events.filter(
            |event: ComparisonEvent| event.gpu_duration is Some,
        ).len() && aggregate.sum == sums.sum && aggregate.mean == sums.mean,
{
    durations_are_those_of_the_events(events, Seq::empty());
}

/// A report compares the events exactly where both were exported. It has a timing where counters
/// were exported and both captures have one, and otherwise says why; it says so where only a part was
/// compared, and names every export that failed.
pub proof fn reports_compare_what_was_exported(
    report: CompareReport,
    a: Result<ComparisonCsv, String>,
    b: Result<ComparisonCsv, String>,
    figures: ComparisonFigures,
    before: Seq<Seq<char>>,
    include_counters: bool,
    counters_available: bool,
    max_events: nat,
    max_changes: nat,
)
    requires
        report.compares(
            a,
            b,
            figures,
            before,
            include_counters,
            counters_available,
            max_events,
            max_changes,
        ),
    ensures
        report.event_structure is Some <==> a is Ok && b is Ok,
        report.analysis_mode == CompareAnalysisMode::EventStructure <==> a is Ok && b is Ok,
        a is Ok && b is Ok ==> {
            let (x, y) = (a->Ok_0, b->Ok_0);
            let partial = x.events.len() < x.total_events || y.events.len() < y.total_events;
            let added = texts(report.warnings@).len() - before.len();
            &&& report.event_structure->0.compares(x, y, max_changes, figures.match_percent@)
            &&& report.gpu_timing is Some <==> counters_available && timing_column(x, y) is Some
                && has_timing(x.events@, figures.baseline) && has_timing(
                y.events@,
                figures.comparison,
            )
            &&& report.gpu_timing matches Some(timing) ==> {
                &&& timing.baseline.aggregates(x.events@, figures.baseline)
                &&& timing.comparison.aggregates(y.events@, figures.comparison)
                &&& timing.sum_difference_percent is None <==> is_zero(figures.baseline.sum.bits)
            }
            &&& added == (if partial {
                1int
            } else {
                0int
            }) + (if include_counters && !(counters_available && reports_timing(x, y, figures)) {
                1int
            } else {
                0int
            })
        },
        !(a is Ok && b is Ok) ==> report.gpu_timing is None && texts(report.warnings@).len()
            - before.len() == (if a is Err {
            1int
        } else {
            0int
        }) + (if b is Err {
            1int
        } else {
            0int
        }),
        a matches Err(error) ==> texts(report.warnings@)[before.len() as int] == cut(
            "Baseline event export failed"@ + ": "@ + error@,
            8_192,
        ),
        b matches Err(error) ==> texts(report.warnings@)[texts(report.warnings@).len() - 1] == cut(
            "Comparison event export failed"@ + ": "@ + error@,
            8_192,
        ),
        texts(report.warnings@).take(before.len() as int) == before,
{
    assert(texts(report.warnings@).take(before.len() as int) =~= before);
}

/// A report is on the two captures that were compared.
pub proof fn reports_are_on_their_captures(
    report: CompareReport,
    a: CaptureSide,
    b: CaptureSide,
    comparison: ComparisonDetail,
)
    requires
        report.reports_on(a, b, comparison),
    ensures
        report.success,
        report.capture_a == a,
        report.capture_b == b,
        report.comparison == comparison,
{
}

// ---------------------------------------------------------------------------
// Counter files
// ---------------------------------------------------------------------------

/// A counter file in JSON is returned as the value that it holds, where that is within its bound.
pub proof fn counter_values_are_returned(
    r: Result<ExportCountersReport, Failure>,
    content: Seq<char>,
)
    requires
        is_counter_json(r, content),
    ensures
        r is Ok <==> json_value(content) is Ok && utf8_len(json_value(content)->Ok_0) <= 8 * 1024
            * 1024,
        r matches Ok(report) ==> {
            &&& report.success
            &&& report.format@ == "json"@
            &&& report.data matches CounterData::Json(text)
            &&& text@ == json_value(content)->Ok_0
            &&& report.columns is None && report.row_count is None
        },
        json_value(content) matches Err(error) ==> r is Err && r->Err_0.message@ == error,
{
}

/// A counter file in CSV is returned as its table of at most 50000 rows, where nothing is wrong with
/// it.
pub proof fn counter_tables_are_returned(r: Result<ExportCountersReport, Failure>, bytes: Seq<u8>)
    requires
        is_counter_table(r, bytes),
    ensures
        r is Ok ==> table_in(bytes, 50_000) is Ok && crate::counters::counter_table_problem(
            table_in(bytes, 50_000)->Ok_0,
        ) is None && r->Ok_0.returns_table(table_in(bytes, 50_000)->Ok_0),
        table_in(bytes, 50_000) matches Err(message) ==> r is Err && r->Err_0.message@ == message,
        table_in(bytes, 50_000) matches Ok(contents) ==> (r is Ok
            <==> crate::counters::counter_table_problem(contents) is None) && (r matches Err(e)
            ==> Some(e.message@) == crate::counters::counter_table_problem(contents)),
{
}

/// A cell is written in JSON as what it is: an integer, a number, or a text.
pub proof fn cells_are_written_as_they_are(n: int, m: nat, bits: u64, text: Seq<char>)
    ensures
        n >= 0 ==> cell_json(Cell::Signed(n)) == decimal(n as nat),
        n < 0 ==> cell_json(Cell::Signed(n)) == seq!['-'] + decimal((-n) as nat),
        cell_json(Cell::Unsigned(m)) == decimal(m),
        cell_json(Cell::Number(bits, text)) == text,
        cell_json(Cell::Text(text)) == quoted(text),
{
}

// ---------------------------------------------------------------------------
// Screenshots
// ---------------------------------------------------------------------------

/// A screenshot is accepted exactly where its file was read, holds something, is in no other format,
/// and is decoded.
pub proof fn screenshots_are_accepted_where_they_are_images(
    file: Result<Vec<u8>, Failure>,
    path: Seq<char>,
)
    ensures
        screenshot_file_problem(file, path) is None <==> file is Ok && file->Ok_0@.len() > 0
            && !is_other_format(file->Ok_0@) && screenshot_size(file->Ok_0@) is Some,
        file matches Err(e) ==> screenshot_file_problem(file, path) == Some(e.message@),
{
}

/// Nothing is embedded of what is not decoded, and an image that is small enough is embedded whole.
pub proof fn small_images_are_embedded_whole(bytes: Seq<u8>, max_dim: u32)
    ensures
        png_shape(bytes, 16_384, 268_435_456) is None ==> embedded_png(bytes, max_dim) is None,
        png_shape(bytes, 16_384, 268_435_456) matches Some(shape) ==> (shape.0 <= max_dim && shape.1
            <= max_dim ==> embedded_png(bytes, max_dim) == png_rewritten(
            bytes,
            16_384,
            268_435_456,
        )),
{
}

// ---------------------------------------------------------------------------
// Completions
// ---------------------------------------------------------------------------

/// A completion is answered for the three prompts and the four templates of resources about one
/// capture, and for no other reference; and for none that is too long.
pub proof fn completions_are_for_what_there_is(name: String)
    ensures
        reference_problem((CompletionReference::Prompt { name })) is None <==> utf8_len(name@) <= 128
            && (name@ == "compare_captures"@ || name@ == "debug_rendering_issue"@ || name@
            == "profile_frame"@),
        reference_problem((CompletionReference::Resource { uri: name })) is None <==> utf8_len(
            name@,
        ) <= 128 && (name@ == "capture://{id}"@ || name@ == "capture://{id}/metadata"@ || name@
            == "capture://{id}/events"@ || name@ == "capture://{id}/counters"@),
{
}

/// An argument that names a capture is completed with captures, any other of the prompt with
/// nothing, and one that the prompt does not have is refused.
pub proof fn arguments_are_completed_by_their_kind(
    r: Result<CompletionStep, Failure>,
    prompt: Seq<char>,
    argument: Seq<char>,
    value: Seq<char>,
    baseline_id: Option<Seq<char>>,
    candidate_id: Option<Seq<char>>,
)
    requires
        is_prompt_step(r, prompt, argument, value, baseline_id, candidate_id),
    ensures
        kind_of(prompt, argument) is None ==> r is Err,
        kind_of(prompt, argument) == Some(ArgumentKind::CaptureId) ==> (
        r matches Ok(CompletionStep::Captures { excluded }) && (argument == "baseline_id"@
            ==> optional_text(excluded) == candidate_id)),
        kind_of(prompt, argument) == Some(ArgumentKind::Path) ==> (r is Ok <==> utf8_len(value)
            <= 32_768),
        kind_of(prompt, argument) == Some(ArgumentKind::Text) ==> (r is Ok <==> utf8_len(value)
            <= 8_192),
        !is_prompt(prompt) ==> kind_of(prompt, argument) is None,
{
}

/// An identifier stands for the capture with its stem, with or without `.wpix`, in any case, behind
/// it.
pub proof fn names_are_resolved_with_and_without_their_extension(
    names: Seq<Seq<char>>,
    before: Seq<char>,
    after: Seq<char>,
    id: Seq<char>,
)
    requires
        before.len() > 0 && after.len() > 0,
        !before.contains('/') && !before.contains('\\') && !before.contains(':'),
        !after.contains('/') && !after.contains('\\') && !after.contains(':') && !after.contains(
            '.',
        ),
    ensures
        trimmed(id) == before + seq!['.'] + after && lower_ascii(after) == lower_ascii("wpix"@)
            ==> resolved_name(names, id) == name_of_stem(names, before, true),
        trimmed(id) == after ==> resolved_name(names, id) == name_of_stem(names, after, false),
{
    let whole = before + seq!['.'] + after;
    reveal_strlit(".");
    reveal_strlit("..");
    assert forall|i: int| 0 <= i < after.len() implies #[trigger] after[i] != '.' by {
        assert(after.contains(after[i]));
    }
    assert forall|c: char| whole.contains(c) implies c == '.' || before.contains(c)
        || after.contains(c) by {
        let k = choose|k: int| 0 <= k < whole.len() && whole[k] == c;
        if k < before.len() {
            assert(before[k] == c);
        } else if k > before.len() {
            assert(after[k - before.len() - 1] == c);
        }
    }
    names_are_parted_at_their_last_dot(before, after);
    lemma_single_name(whole);
    lemma_single_name(after);
    assert(whole.last() == after.last());
    assert(after[after.len() - 1] != '.');
    assert(whole != "."@ && whole != ".."@);
    assert(after[0] != '.');
}

/// One match is the capture; none and several are refused, and all of several are named.
pub proof fn only_one_match_is_taken(id: Seq<char>, matches: Seq<CaptureFile>, i: int)
    ensures
        matches.len() == 1 ==> unique_match(id, matches) == Ok::<Seq<char>, Seq<char>>(
            matches[0].path@,
        ),
        matches.len() != 1 ==> unique_match(id, matches) is Err && has_part(
            unique_match(id, matches)->Err_0,
            id,
        ),
        matches.len() > 1 && 0 <= i < matches.len() ==> has_part(
            unique_match(id, matches)->Err_0,
            matches[i].name@,
        ),
{
    let none = Seq::<char>::empty();
    if matches.len() == 0 {
        parts_are_found_anywhere("Capture not found: "@, id, none);
        assert("Capture not found: "@ + id + none =~= "Capture not found: "@ + id);
    } else if matches.len() > 1 {
        let names = file_names(matches);
        let list = joined(names, ", "@);
        let head = "Capture ID is ambiguous: "@;
        let middle = ". Matches: "@;
        let said = head + id + middle + list;
        parts_are_found_anywhere(head, id, middle + list);
        assert(head + id + (middle + list) =~= said);
        if 0 <= i < matches.len() {
            lemma_joined_has(names, ", "@, i);
            parts_are_found_anywhere(head + id + middle, list, none);
            assert(head + id + middle + list + none =~= said);
            crate::text_laws::parts_of_parts_are_parts(said, list, names[i]);
            assert(names[i] == matches[i].name@);
        }
    }
}

proof fn lemma_joined_has(parts: Seq<Seq<char>>, separator: Seq<char>, i: int)
    requires
        0 <= i < parts.len(),
    ensures
        has_part(joined(parts, separator), parts[i]),
{
    let none = Seq::<char>::empty();
    let before = parts.take(i);
    let one = seq![parts[i]];
    let after = parts.skip(i + 1);
    let left = if before.len() > 0 {
        joined(before, separator) + separator
    } else {
        none
    };
    let right = if after.len() > 0 {
        separator + joined(after, separator)
    } else {
        none
    };
    joining_puts_separators_between(before, one, separator);
    joining_puts_separators_between(one, after, separator);
    joining_puts_separators_between(before + one, after, separator);
    assert(parts =~= before + one + after);
    assert(one[0] == parts[i]);
    assert(joined(one, separator) == parts[i]);
    if before.len() == 0 {
        assert(before + one =~= one);
    }
    if after.len() == 0 {
        assert(before + one + after =~= before + one);
    }
    assert(joined(parts, separator) =~= left + parts[i] + right);
    parts_are_found_anywhere(left, parts[i], right);
}

/// The identifier of a found capture is its file name.
pub proof fn found_captures_are_known_by_their_names(
    r: Result<String, ResourceReadError>,
    path: Seq<char>,
)
    requires
        is_id_at(r, path),
    ensures
        r matches Ok(name) ==> names_file(name@) && has_part(path, name@),
        crate::paths::ends_with_name(path) ==> r is Ok,
        crate::paths::ends_with_name(path) && crate::paths::is_portable(path) ==> r is Ok
            && r->Ok_0@ == last_name(path),
{
}

// ---------------------------------------------------------------------------
// Shown texts
// ---------------------------------------------------------------------------

/// What is shown with both streams holds the text and each of them.
pub proof fn streams_are_shown_behind_the_text(text: Seq<char>, output: CommandOutput)
    ensures
        has_part(with_streams(text, output), text),
        has_part(with_streams(text, output), output.public_stdout@),
        has_part(with_streams(text, output), output.public_stderr@),
{
    let none = Seq::<char>::empty();
    let a = "\nstdout: "@;
    let b = "\nstderr: "@;
    let (x, y) = (output.public_stdout@, output.public_stderr@);
    let all = with_streams(text, output);
    parts_are_found_anywhere(none, text, a + x + b + y);
    assert(none + text + (a + x + b + y) =~= all);
    parts_are_found_anywhere(text + a, x, b + y);
    assert(text + a + x + (b + y) =~= all);
    parts_are_found_anywhere(text + a + x + b, y, none);
    assert(text + a + x + b + y + none =~= all);
}

/// A command is what was expected where nothing is wrong with its options.
pub proof fn commands_are_as_expected(
    r: Result<Vec<Argument>, Failure>,
    problem: Option<Seq<char>>,
    expected: Seq<Arg>,
)
    requires
        is_command(r, problem, expected),
    ensures
        r is Ok <==> problem is None,
        r matches Ok(list) ==> arguments(list@) == expected,
        r matches Err(e) ==> Some(e.message@) == problem,
{
}

/// A version is inferred from a directory whose name is one, and from no other.
pub proof fn versions_are_inferred_from_names(name: Seq<char>)
    ensures
        is_version(name) ==> version_in(Some(name)) == Some(name),
        !is_version(name) ==> version_in(Some(name)) is None,
        version_in(None) is None,
{
}

/// JSON arrays and objects hold their elements in order, with commas between them.
pub proof fn elements_stand_between_commas(a: Seq<Seq<char>>, b: Seq<Seq<char>>, x: Seq<char>)
    ensures
        json_list(Seq::empty()) == "["@ + "]"@,
        json_list(seq![x]) == "["@ + x + "]"@,
        a.len() > 0 && b.len() > 0 ==> json_list(a + b) == "["@ + (joined(a, ","@) + ","@ + joined(
            b,
            ","@,
        )) + "]"@,
        json_object(seq![x]) == "{"@ + x + "}"@,
        json_array(seq![x]) == "["@ + quoted(x) + "]"@,
        member(x, x) == quoted(x) + ":"@ + x,
{
    joining_puts_separators_between(a, b, ","@);
    assert(joined(seq![x], ","@) == x);
    assert(seq![x].map_values(|item: Seq<char>| quoted(item)) =~= seq![quoted(x)]);
    assert(joined(seq![quoted(x)], ","@) == quoted(x));
    assert(joined(Seq::<Seq<char>>::empty(), ","@) == Seq::<char>::empty());
    assert("["@ + Seq::<char>::empty() + "]"@ =~= "["@ + "]"@);
}

/// An exit code is shown as a number, or as missing.
pub proof fn exit_codes_are_shown(code: i32)
    ensures
        exit_code_text(Some(code)) == "Some("@ + signed_decimal(code as int) + ")"@,
        exit_code_text(None) == "None"@,
{
}

/// What came of reading an exported list is what is kept of it, or the reason why it is refused.
pub proof fn exports_are_kept_or_refused(
    r: Result<ComparisonCsv, Failure>,
    header: Option<Seq<Seq<char>>>,
    rows: Seq<Option<Seq<Seq<char>>>>,
    max_events: nat,
)
    requires
        is_export(r, header, rows, max_events),
    ensures
        r is Ok <==> export_problem(header, rows, max_events) is None,
        r matches Ok(csv) ==> header is Some && csv.keeps(header->0, rows, max_events) && csv.wf(),
        r matches Err(e) ==> Some(e.message@) == export_problem(header, rows, max_events),
{
}

/// What the exports are warned of: a part that was left out, a timing that was asked for and is not
/// there, and every export that failed; nothing else.
pub proof fn exports_are_warned_of(
    structure: EventStructureComparison,
    gpu_timing: Option<GpuTimingComparison>,
    counters_available: bool,
    error_a: Option<String>,
    error_b: Option<String>,
    include_counters: bool,
    max_events: nat,
)
    ensures
        export_warnings(
            (EventExports::Compared { structure, gpu_timing, counters_available }),
            include_counters,
            max_events,
        ).len() == (if structure.truncated {
            1int
        } else {
            0int
        }) + (if include_counters && (!counters_available || gpu_timing is None) {
            1int
        } else {
            0int
        }),
        export_warnings((EventExports::Failed { error_a, error_b }), include_counters, max_events)
            == (match error_a {
            Some(error) => seq![cut("Baseline event export failed"@ + ": "@ + error@, 8_192)],
            None => Seq::<Seq<char>>::empty(),
        }) + (match error_b {
            Some(error) => seq![cut("Comparison event export failed"@ + ": "@ + error@, 8_192)],
            None => Seq::<Seq<char>>::empty(),
        }),
{
}

/// What is suggested after a capture was summarized names the capture.
pub proof fn next_steps_name_the_capture(capture_path: Seq<char>, i: int)
    requires
        0 <= i < next_steps(capture_path).len(),
    ensures
        next_steps(capture_path).len() == 3,
        has_part(next_steps(capture_path)[i], seq!['"'] + capture_path + seq!['"']),
{
    reveal_strlit("\" }");
    reveal_strlit("Open in PIX GUI: pix_open_capture { capture_path: \"");
    reveal_strlit("Full event list: pix_get_event_list { capture_path: \"");
    reveal_strlit("Debug-layer validation: pix_run_analysis { capture_path: \"");
    let a = if i == 0 {
        "Open in PIX GUI: pix_open_capture { capture_path: \""@
    } else if i == 1 {
        "Full event list: pix_get_event_list { capture_path: \""@
    } else {
        "Debug-layer validation: pix_run_analysis { capture_path: \""@
    };
    let b = "\" }"@;
    let said = a + capture_path + b;
    assert(next_steps(capture_path)[i] == said);
    let core = seq!['"'] + capture_path + seq!['"'];
    assert(a.last() == '"' && b[0] == '"');
    parts_are_found_anywhere(a.drop_last(), core, b.skip(1));
    assert(a.drop_last() + core + b.skip(1) =~= said);
}

} // verus!
